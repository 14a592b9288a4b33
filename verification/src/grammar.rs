//! The bounded expression grammar: every candidate expression the engine
//! can propose is one shape of this grammar applied to one, two or three
//! operand values.
//!
//! A shape is evaluated by composing the checked fixed-point operations:
//! every intermediate value of a compound shape must itself be
//! representable, and a shape whose guard fails or whose result (or any
//! intermediate) leaves the representable range is dropped from the
//! candidate universe, as a non-finite result would be.
//!
//! An arctangent shape is deliberately absent, and powers take whole
//! exponents only: both are irreducibly floating-point, and this
//! grammar's values are fixed-point integers.

use vstd::prelude::*;
use crate::fixed::{
    fits_val, fx_sqrt, fx_mul, fx_div, fx_ceil, fx_floor, fx_pow, fx_pow_ok, fx_hypot, fx_avg2,
    fx_avg3, fx_geomean2, fx_geomean3, geo3_in_range, tdiv, tmod, fact_nat, SCALE, sqrt_fx,
    mul_fx, div_fx, mod_fx, add_fx, sub_fx, pow_fx, fact_fx, ceil_fx, floor_fx, hypot_fx,
    avg2_fx, avg3_fx, geomean2_fx, geomean3_fx, abs_fx, lemma_fact_mono, lemma_fact12,
};

verus! {

/// One shape of the expression grammar. `x`, `y`, `z` name the operand
/// slots in rendering order.
#[derive(Clone, Copy, Debug, PartialEq, Eq)]
pub enum OpShape {
    /// `x`
    Ident,
    /// `sqrt(x)`
    Sqrt,
    /// `abs(x)`
    Abs,
    /// `x ^ 2`
    Square,
    /// `x ^ 3`
    Cube,
    /// `x!`
    Fact,
    /// `ceil(x)`
    Ceil,
    /// `floor(x)`
    Floor,
    /// `x + y`
    Add2,
    /// `x - y`
    Sub2,
    /// `x * y`
    Mul2,
    /// `x / y`
    Div2,
    /// `x ^ y`
    Pow2,
    /// `x % y`
    Mod2,
    /// `max(x, y)`
    Max2,
    /// `min(x, y)`
    Min2,
    /// `hypot(x, y)`
    Hypot2,
    /// `avg(x, y)`
    Avg2,
    /// `geomean(x, y)`
    Geo2,
    /// `x + y + z`
    AddAdd,
    /// `x + y - z`
    AddSub,
    /// `x - y + z`
    SubAdd,
    /// `x - y - z`
    SubSub,
    /// `x * y + z`
    MulAdd,
    /// `x * y - z`
    MulSub,
    /// `x + y * z`
    AddMul,
    /// `x - y * z`
    SubMul,
    /// `(x + y) * z`
    SumMul,
    /// `(x - y) * z`
    DiffMul,
    /// `x * (y + z)`
    MulSum,
    /// `x * (y - z)`
    MulDiff,
    /// `(x + y) / z`
    SumDiv,
    /// `(x - y) / z`
    DiffDiv,
    /// `(x * y) / z`
    ProdDiv,
    /// `x / y / z`
    DivDiv,
    /// `x * y * z`
    MulMul,
    /// `x ^ y + z`
    PowAdd,
    /// `x ^ y - z`
    PowSub,
    /// `(x + y) ^ z`
    SumPow,
    /// `(x - y) ^ z`
    DiffPow,
    /// `avg(x, y, z)`
    Avg3,
    /// `geomean(x, y, z)`
    Geo3,
}

/// The guard of a shape: when it holds (together with representability of
/// the result and of every intermediate), the shape contributes one
/// candidate.
#[verifier::opaque]
pub open spec fn shape_ok(sh: OpShape, x: int, y: int, z: int) -> bool {
    match sh {
        OpShape::Ident => fits_val(x),
        OpShape::Sqrt => x >= 0 && fits_val(fx_sqrt(x)),
        OpShape::Abs => fits_val(vstd::math::abs(x) as int),
        OpShape::Square => fits_val(fx_mul(x, x)),
        OpShape::Cube => fits_val(fx_mul(x, x)) && fits_val(fx_mul(fx_mul(x, x), x)),
        OpShape::Fact => 0 <= x <= 1200 && x % (SCALE as int) == 0,
        OpShape::Ceil => fits_val(fx_ceil(x)),
        OpShape::Floor => fits_val(fx_floor(x)),
        OpShape::Add2 => fits_val(x + y),
        OpShape::Sub2 => fits_val(x - y),
        OpShape::Mul2 => fits_val(fx_mul(x, y)),
        OpShape::Div2 => y != 0 && fits_val(fx_div(x, y)),
        OpShape::Pow2 => vstd::math::abs(x) <= 10000 && 0 <= y <= 1000 && y % (SCALE as int)
            == 0 && fx_pow_ok(x, tdiv(y, SCALE as int) as nat),
        OpShape::Mod2 => y != 0 && fits_val(tmod(x, y)),
        OpShape::Max2 => fits_val(vstd::math::max(x, y)),
        OpShape::Min2 => fits_val(vstd::math::min(x, y)),
        OpShape::Hypot2 => fits_val(fx_hypot(x, y)),
        OpShape::Avg2 => fits_val(fx_avg2(x, y)),
        OpShape::Geo2 => x > 0 && y > 0 && fits_val(fx_geomean2(x, y)),
        OpShape::AddAdd => fits_val(x + y) && fits_val(x + y + z),
        OpShape::AddSub => fits_val(x + y) && fits_val(x + y - z),
        OpShape::SubAdd => fits_val(x - y) && fits_val(x - y + z),
        OpShape::SubSub => fits_val(x - y) && fits_val(x - y - z),
        OpShape::MulAdd => fits_val(fx_mul(x, y)) && fits_val(fx_mul(x, y) + z),
        OpShape::MulSub => fits_val(fx_mul(x, y)) && fits_val(fx_mul(x, y) - z),
        OpShape::AddMul => fits_val(fx_mul(y, z)) && fits_val(x + fx_mul(y, z)),
        OpShape::SubMul => fits_val(fx_mul(y, z)) && fits_val(x - fx_mul(y, z)),
        OpShape::SumMul => fits_val(x + y) && fits_val(fx_mul(x + y, z)),
        OpShape::DiffMul => fits_val(x - y) && fits_val(fx_mul(x - y, z)),
        OpShape::MulSum => fits_val(y + z) && fits_val(fx_mul(x, y + z)),
        OpShape::MulDiff => fits_val(y - z) && fits_val(fx_mul(x, y - z)),
        OpShape::SumDiv => z != 0 && fits_val(x + y) && fits_val(fx_div(x + y, z)),
        OpShape::DiffDiv => z != 0 && fits_val(x - y) && fits_val(fx_div(x - y, z)),
        OpShape::ProdDiv => z != 0 && fits_val(fx_mul(x, y)) && fits_val(
            fx_div(fx_mul(x, y), z),
        ),
        OpShape::DivDiv => y != 0 && z != 0 && fits_val(fx_div(x, y)) && fits_val(
            fx_div(fx_div(x, y), z),
        ),
        OpShape::MulMul => fits_val(fx_mul(x, y)) && fits_val(fx_mul(fx_mul(x, y), z)),
        OpShape::PowAdd => vstd::math::abs(x) <= 1000 && 0 <= y <= 500 && y % (SCALE as int)
            == 0 && fx_pow_ok(x, tdiv(y, SCALE as int) as nat) && fits_val(
            fx_pow(x, tdiv(y, SCALE as int) as nat) + z,
        ),
        OpShape::PowSub => vstd::math::abs(x) <= 1000 && 0 <= y <= 500 && y % (SCALE as int)
            == 0 && fx_pow_ok(x, tdiv(y, SCALE as int) as nat) && fits_val(
            fx_pow(x, tdiv(y, SCALE as int) as nat) - z,
        ),
        OpShape::SumPow => vstd::math::abs(x + y) <= 1000 && 0 <= z <= 500 && z % (
        SCALE as int) == 0 && fx_pow_ok(x + y, tdiv(z, SCALE as int) as nat),
        OpShape::DiffPow => vstd::math::abs(x - y) <= 1000 && 0 <= z <= 500 && z % (
        SCALE as int) == 0 && fx_pow_ok(x - y, tdiv(z, SCALE as int) as nat),
        OpShape::Avg3 => fits_val(fx_avg3(x, y, z)),
        OpShape::Geo3 => x > 0 && y > 0 && z > 0 && geo3_in_range(x, y, z) && fits_val(
            fx_geomean3(x, y, z),
        ),
    }
}

/// The value a shape computes on its operands.
#[verifier::opaque]
pub open spec fn shape_val(sh: OpShape, x: int, y: int, z: int) -> int {
    match sh {
        OpShape::Ident => x,
        OpShape::Sqrt => fx_sqrt(x),
        OpShape::Abs => vstd::math::abs(x) as int,
        OpShape::Square => fx_mul(x, x),
        OpShape::Cube => fx_mul(fx_mul(x, x), x),
        OpShape::Fact => (SCALE as int) * fact_nat(tdiv(x, SCALE as int) as nat),
        OpShape::Ceil => fx_ceil(x),
        OpShape::Floor => fx_floor(x),
        OpShape::Add2 => x + y,
        OpShape::Sub2 => x - y,
        OpShape::Mul2 => fx_mul(x, y),
        OpShape::Div2 => fx_div(x, y),
        OpShape::Pow2 => fx_pow(x, tdiv(y, SCALE as int) as nat),
        OpShape::Mod2 => tmod(x, y),
        OpShape::Max2 => vstd::math::max(x, y),
        OpShape::Min2 => vstd::math::min(x, y),
        OpShape::Hypot2 => fx_hypot(x, y),
        OpShape::Avg2 => fx_avg2(x, y),
        OpShape::Geo2 => fx_geomean2(x, y),
        OpShape::AddAdd => x + y + z,
        OpShape::AddSub => x + y - z,
        OpShape::SubAdd => x - y + z,
        OpShape::SubSub => x - y - z,
        OpShape::MulAdd => fx_mul(x, y) + z,
        OpShape::MulSub => fx_mul(x, y) - z,
        OpShape::AddMul => x + fx_mul(y, z),
        OpShape::SubMul => x - fx_mul(y, z),
        OpShape::SumMul => fx_mul(x + y, z),
        OpShape::DiffMul => fx_mul(x - y, z),
        OpShape::MulSum => fx_mul(x, y + z),
        OpShape::MulDiff => fx_mul(x, y - z),
        OpShape::SumDiv => fx_div(x + y, z),
        OpShape::DiffDiv => fx_div(x - y, z),
        OpShape::ProdDiv => fx_div(fx_mul(x, y), z),
        OpShape::DivDiv => fx_div(fx_div(x, y), z),
        OpShape::MulMul => fx_mul(fx_mul(x, y), z),
        OpShape::PowAdd => fx_pow(x, tdiv(y, SCALE as int) as nat) + z,
        OpShape::PowSub => fx_pow(x, tdiv(y, SCALE as int) as nat) - z,
        OpShape::SumPow => fx_pow(x + y, tdiv(z, SCALE as int) as nat),
        OpShape::DiffPow => fx_pow(x - y, tdiv(z, SCALE as int) as nat),
        OpShape::Avg3 => fx_avg3(x, y, z),
        OpShape::Geo3 => fx_geomean3(x, y, z),
    }
}

/// A shape's result is representable whenever its guard holds.
pub proof fn lemma_shape_val_fits(sh: OpShape, x: int, y: int, z: int)
    requires
        fits_val(x),
        fits_val(y),
        fits_val(z),
        shape_ok(sh, x, y, z),
    ensures
        fits_val(shape_val(sh, x, y, z)),
{
    reveal(shape_ok);
    reveal(shape_val);
    match sh {
        OpShape::Fact => {
            lemma_fact_mono(tdiv(x, SCALE as int) as nat, 12);
            lemma_fact12();
        },
        OpShape::Pow2 => {
            lemma_pow_ok_fits(x, tdiv(y, SCALE as int) as nat);
        },
        OpShape::SumPow => {
            lemma_pow_ok_fits(x + y, tdiv(z, SCALE as int) as nat);
        },
        OpShape::DiffPow => {
            lemma_pow_ok_fits(x - y, tdiv(z, SCALE as int) as nat);
        },
        _ => {},
    }
}

/// A power whose intermediates all fit has a representable value.
pub proof fn lemma_pow_ok_fits(a: int, n: nat)
    requires
        fx_pow_ok(a, n),
    ensures
        fits_val(fx_pow(a, n)),
{
    if n == 0 {
    }
}

/// One candidate of the universe: a shape, its operand values, and the
/// value it computes.
#[derive(Clone, Copy, Debug, PartialEq, Eq)]
pub struct Candidate {
    pub shape: OpShape,
    pub x: i64,
    pub y: i64,
    pub z: i64,
    pub result: i64,
}

/// The candidate a shape instance denotes.
pub open spec fn cand_of(sh: OpShape, x: i64, y: i64, z: i64) -> Candidate {
    Candidate { shape: sh, x, y, z, result: shape_val(sh, x as int, y as int, z as int) as i64 }
}

/// A well-formed candidate: its guard held and its stored result is the
/// shape's exact value.
pub open spec fn cand_ok(c: Candidate) -> bool {
    &&& fits_val(c.x as int)
    &&& fits_val(c.y as int)
    &&& fits_val(c.z as int)
    &&& shape_ok(c.shape, c.x as int, c.y as int, c.z as int)
    &&& c.result as int == shape_val(c.shape, c.x as int, c.y as int, c.z as int)
    &&& fits_val(c.result as int)
}

/// A singleton when the condition holds, else nothing.
pub open spec fn opt_cand(b: bool, c: Candidate) -> Seq<Candidate> {
    if b {
        seq![c]
    } else {
        Seq::empty()
    }
}

/// Every element of a sequence is a well-formed candidate.
pub open spec fn all_ok(s: Seq<Candidate>) -> bool {
    forall|k: int| 0 <= k < s.len() ==> cand_ok(#[trigger] s[k])
}

pub proof fn lemma_all_ok_concat(s1: Seq<Candidate>, s2: Seq<Candidate>)
    requires
        all_ok(s1),
        all_ok(s2),
    ensures
        all_ok(s1 + s2),
{
    assert forall|k: int| 0 <= k < (s1 + s2).len() implies cand_ok(#[trigger] (s1 + s2)[k]) by {
        if k < s1.len() {
            assert((s1 + s2)[k] == s1[k]);
        } else {
            assert((s1 + s2)[k] == s2[k - s1.len()]);
        }
    }
}

/// Evaluates one shape on given operands: `Some` exactly when the shape's
/// guard holds and everything stays representable, and then the result is
/// the shape's exact value.
pub fn eval_shape(sh: OpShape, x: i64, y: i64, z: i64) -> (r: Option<i64>)
    requires
        fits_val(x as int),
        fits_val(y as int),
        fits_val(z as int),
    ensures
        r matches Some(v) ==> shape_ok(sh, x as int, y as int, z as int) && v as int
            == shape_val(sh, x as int, y as int, z as int),
        r is None ==> !shape_ok(sh, x as int, y as int, z as int),
{
    proof {
        reveal(shape_ok);
        reveal(shape_val);
    }
    match sh {
        OpShape::Ident => Some(x),
        OpShape::Sqrt => {
            if x >= 0 {
                sqrt_fx(x)
            } else {
                None
            }
        },
        OpShape::Abs => Some(abs_fx(x)),
        OpShape::Square => mul_fx(x, x),
        OpShape::Cube => {
            match mul_fx(x, x) {
                Some(s) => mul_fx(s, x),
                None => None,
            }
        },
        OpShape::Fact => {
            if 0 <= x && x <= 1200 && x % 100 == 0 {
                proof {
                    lemma_shape_val_fits(OpShape::Fact, x as int, y as int, z as int);
                }
                Some(fact_fx(x))
            } else {
                None
            }
        },
        OpShape::Ceil => ceil_fx(x),
        OpShape::Floor => floor_fx(x),
        OpShape::Add2 => add_fx(x, y),
        OpShape::Sub2 => sub_fx(x, y),
        OpShape::Mul2 => mul_fx(x, y),
        OpShape::Div2 => {
            if y != 0 {
                div_fx(x, y)
            } else {
                None
            }
        },
        OpShape::Pow2 => {
            let ax = abs_fx(x);
            if ax <= 10000 && 0 <= y && y <= 1000 && y % 100 == 0 {
                pow_fx(x, y)
            } else {
                None
            }
        },
        OpShape::Mod2 => {
            if y != 0 {
                mod_fx(x, y)
            } else {
                None
            }
        },
        OpShape::Max2 => {
            if x >= y {
                Some(x)
            } else {
                Some(y)
            }
        },
        OpShape::Min2 => {
            if x <= y {
                Some(x)
            } else {
                Some(y)
            }
        },
        OpShape::Hypot2 => hypot_fx(x, y),
        OpShape::Avg2 => Some(avg2_fx(x, y)),
        OpShape::Geo2 => {
            if x > 0 && y > 0 {
                geomean2_fx(x, y)
            } else {
                None
            }
        },
        OpShape::AddAdd => {
            match add_fx(x, y) {
                Some(s) => add_fx(s, z),
                None => None,
            }
        },
        OpShape::AddSub => {
            match add_fx(x, y) {
                Some(s) => sub_fx(s, z),
                None => None,
            }
        },
        OpShape::SubAdd => {
            match sub_fx(x, y) {
                Some(s) => add_fx(s, z),
                None => None,
            }
        },
        OpShape::SubSub => {
            match sub_fx(x, y) {
                Some(s) => sub_fx(s, z),
                None => None,
            }
        },
        OpShape::MulAdd => {
            match mul_fx(x, y) {
                Some(s) => add_fx(s, z),
                None => None,
            }
        },
        OpShape::MulSub => {
            match mul_fx(x, y) {
                Some(s) => sub_fx(s, z),
                None => None,
            }
        },
        OpShape::AddMul => {
            match mul_fx(y, z) {
                Some(s) => add_fx(x, s),
                None => None,
            }
        },
        OpShape::SubMul => {
            match mul_fx(y, z) {
                Some(s) => sub_fx(x, s),
                None => None,
            }
        },
        OpShape::SumMul => {
            match add_fx(x, y) {
                Some(s) => mul_fx(s, z),
                None => None,
            }
        },
        OpShape::DiffMul => {
            match sub_fx(x, y) {
                Some(s) => mul_fx(s, z),
                None => None,
            }
        },
        OpShape::MulSum => {
            match add_fx(y, z) {
                Some(s) => mul_fx(x, s),
                None => None,
            }
        },
        OpShape::MulDiff => {
            match sub_fx(y, z) {
                Some(s) => mul_fx(x, s),
                None => None,
            }
        },
        OpShape::SumDiv => {
            if z != 0 {
                match add_fx(x, y) {
                    Some(s) => div_fx(s, z),
                    None => None,
                }
            } else {
                None
            }
        },
        OpShape::DiffDiv => {
            if z != 0 {
                match sub_fx(x, y) {
                    Some(s) => div_fx(s, z),
                    None => None,
                }
            } else {
                None
            }
        },
        OpShape::ProdDiv => {
            if z != 0 {
                match mul_fx(x, y) {
                    Some(s) => div_fx(s, z),
                    None => None,
                }
            } else {
                None
            }
        },
        OpShape::DivDiv => {
            if y != 0 && z != 0 {
                match div_fx(x, y) {
                    Some(s) => div_fx(s, z),
                    None => None,
                }
            } else {
                None
            }
        },
        OpShape::MulMul => {
            match mul_fx(x, y) {
                Some(s) => mul_fx(s, z),
                None => None,
            }
        },
        OpShape::PowAdd => {
            let ax = abs_fx(x);
            if ax <= 1000 && 0 <= y && y <= 500 && y % 100 == 0 {
                match pow_fx(x, y) {
                    Some(p) => {
                        proof {
                            lemma_pow_ok_fits(x as int, tdiv(y as int, SCALE as int) as nat);
                        }
                        add_fx(p, z)
                    },
                    None => None,
                }
            } else {
                None
            }
        },
        OpShape::PowSub => {
            let ax = abs_fx(x);
            if ax <= 1000 && 0 <= y && y <= 500 && y % 100 == 0 {
                match pow_fx(x, y) {
                    Some(p) => {
                        proof {
                            lemma_pow_ok_fits(x as int, tdiv(y as int, SCALE as int) as nat);
                        }
                        sub_fx(p, z)
                    },
                    None => None,
                }
            } else {
                None
            }
        },
        OpShape::SumPow => {
            match add_fx(x, y) {
                Some(s) => {
                    let a = abs_fx(s);
                    if a <= 1000 && 0 <= z && z <= 500 && z % 100 == 0 {
                        pow_fx(s, z)
                    } else {
                        None
                    }
                },
                None => None,
            }
        },
        OpShape::DiffPow => {
            match sub_fx(x, y) {
                Some(s) => {
                    let a = abs_fx(s);
                    if a <= 1000 && 0 <= z && z <= 500 && z % 100 == 0 {
                        pow_fx(s, z)
                    } else {
                        None
                    }
                },
                None => None,
            }
        },
        OpShape::Avg3 => Some(avg3_fx(x, y, z)),
        OpShape::Geo3 => {
            if x > 0 && y > 0 && z > 0 {
                geomean3_fx(x, y, z)
            } else {
                None
            }
        },
    }
}

} // verus!
