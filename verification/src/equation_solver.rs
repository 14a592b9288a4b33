//! Rendering of grammar candidates into operations: each candidate is an
//! `Operation` holding its numeric result, an `equation` string whose
//! operands print as literal numbers, and a `formula` string whose
//! operands are replaced by the sub-formula that produced them, when the
//! formula map knows one.

use vstd::prelude::*;
use vstd::hash_map::StringHashMap;
use crate::grammar::{OpShape, Candidate, cand_ok, all_ok};
use crate::text::{fx_chars, fx_to_string};
use crate::universe::{sanitize, gen_cands, sanitize_inputs, generate_candidates,
    lemma_gen_cands_ok};

verus! {

/// One candidate expression with its value and its two renderings.
#[derive(Clone, Debug)]
pub struct Operation {
    pub result: i64,
    pub equation: String,
    pub formula: String,
}

/// The pieces of a shape's rendering: prefix, first and second separator,
/// suffix, and how many operands the shape takes. A shape of arity `k`
/// renders as `pre x m1` (one operand), `pre x m1 y m2` (two), or
/// `pre x m1 y m2 z post` (three).
pub open spec fn shape_tpl(sh: OpShape) -> (Seq<char>, Seq<char>, Seq<char>, Seq<char>, int) {
    match sh {
        OpShape::Ident => (""@, ""@, ""@, ""@, 1),
        OpShape::Sqrt => ("sqrt("@, ")"@, ""@, ""@, 1),
        OpShape::Abs => ("abs("@, ")"@, ""@, ""@, 1),
        OpShape::Square => (""@, " ^ 2"@, ""@, ""@, 1),
        OpShape::Cube => (""@, " ^ 3"@, ""@, ""@, 1),
        OpShape::Fact => (""@, "!"@, ""@, ""@, 1),
        OpShape::Ceil => ("ceil("@, ")"@, ""@, ""@, 1),
        OpShape::Floor => ("floor("@, ")"@, ""@, ""@, 1),
        OpShape::Add2 => (""@, " + "@, ""@, ""@, 2),
        OpShape::Sub2 => (""@, " - "@, ""@, ""@, 2),
        OpShape::Mul2 => (""@, " * "@, ""@, ""@, 2),
        OpShape::Div2 => (""@, " / "@, ""@, ""@, 2),
        OpShape::Pow2 => (""@, " ^ "@, ""@, ""@, 2),
        OpShape::Mod2 => (""@, " % "@, ""@, ""@, 2),
        OpShape::Max2 => ("max("@, ", "@, ")"@, ""@, 2),
        OpShape::Min2 => ("min("@, ", "@, ")"@, ""@, 2),
        OpShape::Hypot2 => ("hypot("@, ", "@, ")"@, ""@, 2),
        OpShape::Avg2 => ("avg("@, ", "@, ")"@, ""@, 2),
        OpShape::Geo2 => ("geomean("@, ", "@, ")"@, ""@, 2),
        OpShape::AddAdd => (""@, " + "@, " + "@, ""@, 3),
        OpShape::AddSub => (""@, " + "@, " - "@, ""@, 3),
        OpShape::SubAdd => (""@, " - "@, " + "@, ""@, 3),
        OpShape::SubSub => (""@, " - "@, " - "@, ""@, 3),
        OpShape::MulAdd => (""@, " * "@, " + "@, ""@, 3),
        OpShape::MulSub => (""@, " * "@, " - "@, ""@, 3),
        OpShape::AddMul => (""@, " + "@, " * "@, ""@, 3),
        OpShape::SubMul => (""@, " - "@, " * "@, ""@, 3),
        OpShape::SumMul => ("("@, " + "@, ") * "@, ""@, 3),
        OpShape::DiffMul => ("("@, " - "@, ") * "@, ""@, 3),
        OpShape::MulSum => (""@, " * ("@, " + "@, ")"@, 3),
        OpShape::MulDiff => (""@, " * ("@, " - "@, ")"@, 3),
        OpShape::SumDiv => ("("@, " + "@, ") / "@, ""@, 3),
        OpShape::DiffDiv => ("("@, " - "@, ") / "@, ""@, 3),
        OpShape::ProdDiv => ("("@, " * "@, ") / "@, ""@, 3),
        OpShape::DivDiv => (""@, " / "@, " / "@, ""@, 3),
        OpShape::MulMul => (""@, " * "@, " * "@, ""@, 3),
        OpShape::PowAdd => (""@, " ^ "@, " + "@, ""@, 3),
        OpShape::PowSub => (""@, " ^ "@, " - "@, ""@, 3),
        OpShape::SumPow => ("("@, " + "@, ") ^ "@, ""@, 3),
        OpShape::DiffPow => ("("@, " - "@, ") ^ "@, ""@, 3),
        OpShape::Avg3 => ("avg("@, ", "@, ", "@, ")"@, 3),
        OpShape::Geo3 => ("geomean("@, ", "@, ", "@, ")"@, 3),
    }
}

/// A shape rendered over given operand strings.
pub open spec fn eq_chars(sh: OpShape, xs: Seq<char>, ys: Seq<char>, zs: Seq<char>) -> Seq<char> {
    let (pre, m1, m2, post, ar) = shape_tpl(sh);
    if ar == 1 {
        pre + xs + m1
    } else if ar == 2 {
        pre + xs + m1 + ys + m2
    } else {
        pre + xs + m1 + ys + m2 + zs + post
    }
}

/// The equation string of a candidate: operands as literal numbers.
pub open spec fn cand_eq(c: Candidate) -> Seq<char> {
    eq_chars(c.shape, fx_chars(c.x as int), fx_chars(c.y as int), fx_chars(c.z as int))
}

/// The formula map as a map over character sequences.
pub open spec fn chars_map(m: Map<Seq<char>, String>) -> Map<Seq<char>, Seq<char>> {
    Map::new(|k: Seq<char>| m.contains_key(k), |k: Seq<char>| m[k]@)
}

/// The formula string of one operand value: the mapped sub-formula when
/// the map knows the value's rendering, else the rendering itself.
pub open spec fn fml(v: int, m: Map<Seq<char>, Seq<char>>) -> Seq<char> {
    if m.contains_key(fx_chars(v)) {
        m[fx_chars(v)]
    } else {
        fx_chars(v)
    }
}

/// The formula string of a candidate: operands replaced by their known
/// sub-formulas.
pub open spec fn cand_fml(c: Candidate, m: Map<Seq<char>, Seq<char>>) -> Seq<char> {
    eq_chars(c.shape, fml(c.x as int, m), fml(c.y as int, m), fml(c.z as int, m))
}

/// A rendered operation list matches a candidate list element by element.
pub open spec fn ops_match(
    ops: Seq<Operation>,
    cs: Seq<Candidate>,
    m: Map<Seq<char>, String>,
) -> bool {
    &&& ops.len() == cs.len()
    &&& forall|k: int|
        0 <= k < ops.len() ==> {
            &&& (#[trigger] ops[k]).result == cs[k].result
            &&& ops[k].equation@ == cand_eq(cs[k])
            &&& ops[k].formula@ == cand_fml(cs[k], chars_map(m))
        }
}

/// The executable rendering pieces of a shape.
fn shape_tpl_x(sh: OpShape) -> (r: (&'static str, &'static str, &'static str, &'static str, u8))
    ensures
        r.0@ == shape_tpl(sh).0,
        r.1@ == shape_tpl(sh).1,
        r.2@ == shape_tpl(sh).2,
        r.3@ == shape_tpl(sh).3,
        r.4 as int == shape_tpl(sh).4,
{
    match sh {
        OpShape::Ident => ("", "", "", "", 1),
        OpShape::Sqrt => ("sqrt(", ")", "", "", 1),
        OpShape::Abs => ("abs(", ")", "", "", 1),
        OpShape::Square => ("", " ^ 2", "", "", 1),
        OpShape::Cube => ("", " ^ 3", "", "", 1),
        OpShape::Fact => ("", "!", "", "", 1),
        OpShape::Ceil => ("ceil(", ")", "", "", 1),
        OpShape::Floor => ("floor(", ")", "", "", 1),
        OpShape::Add2 => ("", " + ", "", "", 2),
        OpShape::Sub2 => ("", " - ", "", "", 2),
        OpShape::Mul2 => ("", " * ", "", "", 2),
        OpShape::Div2 => ("", " / ", "", "", 2),
        OpShape::Pow2 => ("", " ^ ", "", "", 2),
        OpShape::Mod2 => ("", " % ", "", "", 2),
        OpShape::Max2 => ("max(", ", ", ")", "", 2),
        OpShape::Min2 => ("min(", ", ", ")", "", 2),
        OpShape::Hypot2 => ("hypot(", ", ", ")", "", 2),
        OpShape::Avg2 => ("avg(", ", ", ")", "", 2),
        OpShape::Geo2 => ("geomean(", ", ", ")", "", 2),
        OpShape::AddAdd => ("", " + ", " + ", "", 3),
        OpShape::AddSub => ("", " + ", " - ", "", 3),
        OpShape::SubAdd => ("", " - ", " + ", "", 3),
        OpShape::SubSub => ("", " - ", " - ", "", 3),
        OpShape::MulAdd => ("", " * ", " + ", "", 3),
        OpShape::MulSub => ("", " * ", " - ", "", 3),
        OpShape::AddMul => ("", " + ", " * ", "", 3),
        OpShape::SubMul => ("", " - ", " * ", "", 3),
        OpShape::SumMul => ("(", " + ", ") * ", "", 3),
        OpShape::DiffMul => ("(", " - ", ") * ", "", 3),
        OpShape::MulSum => ("", " * (", " + ", ")", 3),
        OpShape::MulDiff => ("", " * (", " - ", ")", 3),
        OpShape::SumDiv => ("(", " + ", ") / ", "", 3),
        OpShape::DiffDiv => ("(", " - ", ") / ", "", 3),
        OpShape::ProdDiv => ("(", " * ", ") / ", "", 3),
        OpShape::DivDiv => ("", " / ", " / ", "", 3),
        OpShape::MulMul => ("", " * ", " * ", "", 3),
        OpShape::PowAdd => ("", " ^ ", " + ", "", 3),
        OpShape::PowSub => ("", " ^ ", " - ", "", 3),
        OpShape::SumPow => ("(", " + ", ") ^ ", "", 3),
        OpShape::DiffPow => ("(", " - ", ") ^ ", "", 3),
        OpShape::Avg3 => ("avg(", ", ", ", ", ")", 3),
        OpShape::Geo3 => ("geomean(", ", ", ", ", ")", 3),
    }
}

/// Renders a shape over given operand strings.
fn render_with(sh: OpShape, xs: &str, ys: &str, zs: &str) -> (s: String)
    ensures
        s@ == eq_chars(sh, xs@, ys@, zs@),
{
    let (pre, m1, m2, post, ar) = shape_tpl_x(sh);
    let mut s = pre.to_owned();
    s.append(xs);
    s.append(m1);
    if ar >= 2 {
        s.append(ys);
        s.append(m2);
    }
    if ar >= 3 {
        s.append(zs);
        s.append(post);
    }
    s
}

/// The formula string of one operand value.
fn formula_of(v: i64, m: &StringHashMap<String>) -> (r: String)
    ensures
        r@ == fml(v as int, chars_map(m@)),
{
    let key = fx_to_string(v);
    match m.get(key.as_str()) {
        Some(f) => f.clone(),
        None => key,
    }
}

/// Renders one well-formed candidate into an operation.
fn render_candidate(c: &Candidate, m: &StringHashMap<String>) -> (op: Operation)
    requires
        cand_ok(*c),
    ensures
        op.result == c.result,
        op.equation@ == cand_eq(*c),
        op.formula@ == cand_fml(*c, chars_map(m@)),
{
    let xs = fx_to_string(c.x);
    let ys = fx_to_string(c.y);
    let zs = fx_to_string(c.z);
    let equation = render_with(c.shape, xs.as_str(), ys.as_str(), zs.as_str());
    let xf = formula_of(c.x, m);
    let yf = formula_of(c.y, m);
    let zf = formula_of(c.z, m);
    let formula = render_with(c.shape, xf.as_str(), yf.as_str(), zf.as_str());
    Operation { result: c.result, equation, formula }
}

/// The expression generator: enumerates the whole bounded grammar over a
/// list of input values.
pub struct EquationSolver {}

impl EquationSolver {
    pub fn new() -> (s: Self) {
        EquationSolver {  }
    }

    /// Generates every candidate operation of the inputs, with formulas
    /// falling back to the operands' literal renderings.
    pub fn generate_all_operations(&self, inputs: &Vec<i64>) -> (r: Vec<Operation>)
        ensures
            ops_match(r@, gen_cands(sanitize(inputs@)), Map::empty()),
    {
        let empty: StringHashMap<String> = StringHashMap::new();
        let r = self.generate_all_operations_with_formulas(inputs, &empty);
        proof {
            assert(chars_map(empty@) =~= chars_map(Map::empty()));
        }
        r
    }

    /// Generates every candidate operation of the inputs, rendering each
    /// formula with the given map of known sub-formulas.
    pub fn generate_all_operations_with_formulas(
        &self,
        inputs: &Vec<i64>,
        formula_map: &StringHashMap<String>,
    ) -> (r: Vec<Operation>)
        ensures
            ops_match(r@, gen_cands(sanitize(inputs@)), formula_map@),
    {
        let nums = sanitize_inputs(inputs);
        let cands = generate_candidates(&nums);
        proof {
            lemma_gen_cands_ok(nums@);
        }
        let mut out: Vec<Operation> = Vec::new();
        let mut i: usize = 0;
        while i < cands.len()
            invariant
                i <= cands.len(),
                cands@ == gen_cands(nums@),
                all_ok(cands@),
                out@.len() == i,
                forall|k: int|
                    0 <= k < i ==> {
                        &&& (#[trigger] out@[k]).result == cands@[k].result
                        &&& out@[k].equation@ == cand_eq(cands@[k])
                        &&& out@[k].formula@ == cand_fml(cands@[k], chars_map(formula_map@))
                    },
            decreases cands.len() - i,
        {
            let op = render_candidate(&cands[i], formula_map);
            out.push(op);
            i = i + 1;
        }
        out
    }
}

} // verus!
