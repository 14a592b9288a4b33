//! The search engine: given a target and a list of input values it finds
//! an exact expression over the inputs, or the closest approximation by
//! the accuracy metric, never re-suggesting an expression already tried
//! for the same variable, and caching the best solution per request key.

use vstd::prelude::*;
use vstd::hash_map::StringHashMap;
use crate::types::{MathSolution, VariableAttempt, StoredVariable, ACC_PERFECT, acc_spec,
    calculate_accuracy};
use crate::expression::{EvalError, solve_expr_spec, eval_expression};
use crate::equation_solver::{Operation, EquationSolver, cand_eq, cand_fml, chars_map};
use crate::universe::{sanitize, gen_cands};
use crate::text::{fx_chars, fx_to_string};

verus! {

/// The ghost view of a rendered operation.
pub ghost struct OpView {
    pub result: i64,
    pub equation: Seq<char>,
    pub formula: Seq<char>,
}

/// The view of one operation.
pub open spec fn opv(op: Operation) -> OpView {
    OpView { result: op.result, equation: op.equation@, formula: op.formula@ }
}

/// The views of a list of operations.
pub open spec fn views_of(ops: Seq<Operation>) -> Seq<OpView> {
    ops.map_values(|op: Operation| opv(op))
}

/// The candidate universe of the inputs, rendered with a formula map, as
/// views.
pub open spec fn universe_views(inputs: Seq<i64>, cm: Map<Seq<char>, Seq<char>>) -> Seq<OpView> {
    let cs = gen_cands(sanitize(inputs));
    Seq::new(
        cs.len(),
        |k: int| OpView { result: cs[k].result, equation: cand_eq(cs[k]), formula: cand_fml(cs[k], cm) },
    )
}

/// The attempts recorded for a variable, or nothing.
pub open spec fn attempts_of(m: Map<Seq<char>, Vec<VariableAttempt>>, var: Seq<char>) -> Seq<
    VariableAttempt,
> {
    if m.contains_key(var) {
        m[var]@
    } else {
        Seq::empty()
    }
}

/// Whether an equation string was already recorded for the variable.
pub open spec fn tried(attempts: Seq<VariableAttempt>, eq: Seq<char>) -> bool {
    exists|k: int| 0 <= k < attempts.len() && (#[trigger] attempts[k]).equation@ == eq
}

/// The operations whose equations were not yet tried, in order.
pub open spec fn untried_views(ovs: Seq<OpView>, attempts: Seq<VariableAttempt>) -> Seq<OpView>
    decreases ovs.len(),
{
    if ovs.len() == 0 {
        ovs
    } else {
        untried_views(ovs.drop_last(), attempts) + if !tried(attempts, ovs.last().equation) {
            seq![ovs.last()]
        } else {
            Seq::empty()
        }
    }
}

/// The index of the first operation whose result is the target, or -1.
pub open spec fn first_exact(ovs: Seq<OpView>, target: i64, i: int) -> int
    decreases ovs.len() - i,
{
    if i < 0 || i >= ovs.len() {
        -1
    } else if ovs[i].result == target {
        i
    } else {
        first_exact(ovs, target, i + 1)
    }
}

/// The index of the best-accuracy operation, the last one in case of
/// ties; -1 on an empty list.
pub open spec fn last_max(ovs: Seq<OpView>, target: i64, i: int, cur: int) -> int
    decreases ovs.len() - i,
{
    if i < 0 || i >= ovs.len() {
        cur
    } else if cur < 0 || acc_spec(ovs[i].result as int, target as int) >= acc_spec(
        ovs[cur].result as int,
        target as int,
    ) {
        last_max(ovs, target, i + 1, i)
    } else {
        last_max(ovs, target, i + 1, cur)
    }
}

/// The ghost view of a chosen solution, before timestamps and bookkeeping
/// are attached.
pub ghost struct SolView {
    pub result: i64,
    pub equation: Seq<char>,
    pub accuracy: int,
    pub formula: Seq<char>,
}

/// The solution view an operation yields.
pub open spec fn sol_of(ov: OpView, target: i64) -> SolView {
    SolView {
        result: ov.result,
        equation: ov.equation,
        accuracy: acc_spec(ov.result as int, target as int),
        formula: ov.formula,
    }
}

/// The approximation pick: the first input as a baseline, improved first
/// by the best untried operation, then by the best operation overall,
/// each only when strictly better.
pub open spec fn approx_pick(
    untried: Seq<OpView>,
    alls: Seq<OpView>,
    target: i64,
    first_input: i64,
) -> SolView {
    let base = SolView {
        result: first_input,
        equation: fx_chars(first_input as int),
        accuracy: acc_spec(first_input as int, target as int),
        formula: fx_chars(first_input as int),
    };
    let bu = last_max(untried, target, 0, -1);
    let s1 = if bu >= 0 && acc_spec(untried[bu].result as int, target as int) > base.accuracy {
        sol_of(untried[bu], target)
    } else {
        base
    };
    let ba = last_max(alls, target, 0, -1);
    if ba >= 0 && acc_spec(alls[ba].result as int, target as int) > s1.accuracy {
        sol_of(alls[ba], target)
    } else {
        s1
    }
}

/// The solution the search pipeline picks for a target over given untried
/// and all operations.
pub open spec fn solve_pick(
    untried: Seq<OpView>,
    alls: Seq<OpView>,
    target: i64,
    inputs: Seq<i64>,
) -> SolView {
    if first_exact(untried, target, 0) >= 0 {
        let i = first_exact(untried, target, 0);
        SolView {
            result: target,
            equation: untried[i].equation,
            accuracy: ACC_PERFECT as int,
            formula: untried[i].formula,
        }
    } else if first_exact(alls, target, 0) >= 0 {
        let i = first_exact(alls, target, 0);
        SolView {
            result: target,
            equation: alls[i].equation,
            accuracy: ACC_PERFECT as int,
            formula: alls[i].formula,
        }
    } else if inputs.len() == 0 {
        SolView {
            result: target,
            equation: fx_chars(target as int),
            accuracy: ACC_PERFECT as int,
            formula: fx_chars(target as int),
        }
    } else {
        approx_pick(untried, alls, target, inputs[0])
    }
}

// ---------------------------------------------------------------------
// The formula map.
// ---------------------------------------------------------------------

/// Each input value mapped to its own rendering.
pub open spec fn seed_map(inputs: Seq<i64>) -> Map<Seq<char>, Seq<char>>
    decreases inputs.len(),
{
    if inputs.len() == 0 {
        Map::empty()
    } else {
        seed_map(inputs.drop_last()).insert(
            fx_chars(inputs.last() as int),
            fx_chars(inputs.last() as int),
        )
    }
}

/// Overlays the formulas of prior attempts, first writer winning per key.
pub open spec fn overlay(
    m: Map<Seq<char>, Seq<char>>,
    attempts: Seq<VariableAttempt>,
) -> Map<Seq<char>, Seq<char>>
    decreases attempts.len(),
{
    if attempts.len() == 0 {
        m
    } else {
        let prev = overlay(m, attempts.drop_last());
        let a = attempts.last();
        if a.formula is Some && !prev.contains_key(fx_chars(a.result as int)) {
            prev.insert(fx_chars(a.result as int), a.formula->0@)
        } else {
            prev
        }
    }
}

/// The formula map of a variable: the inputs seeded as their own
/// formulas, overlaid with the formulas of the attempts already recorded.
pub open spec fn formula_map_spec(
    attempts: Seq<VariableAttempt>,
    inputs: Seq<i64>,
) -> Map<Seq<char>, Seq<char>> {
    overlay(seed_map(inputs), attempts)
}

// ---------------------------------------------------------------------
// The cache key.
// ---------------------------------------------------------------------

/// The inputs joined with commas.
pub open spec fn inputs_join(inputs: Seq<i64>) -> Seq<char>
    decreases inputs.len(),
{
    if inputs.len() == 0 {
        Seq::empty()
    } else if inputs.len() == 1 {
        fx_chars(inputs[0] as int)
    } else {
        inputs_join(inputs.drop_last()) + ","@ + fx_chars(inputs.last() as int)
    }
}

/// The composite key of one solve request.
pub open spec fn cache_key_chars(
    class_name: Seq<char>,
    var_name: Seq<char>,
    target: i64,
    inputs: Seq<i64>,
) -> Seq<char> {
    class_name + "-"@ + var_name + "-"@ + fx_chars(target as int) + "-"@ + inputs_join(inputs)
}

// ---------------------------------------------------------------------
// The engine.
// ---------------------------------------------------------------------

/// The search engine's state: the solution cache, the per-variable
/// attempt ledger, a diagnostic observation counter and remembered
/// function-call results.
pub struct MathEngine {
    solutions: StringHashMap<MathSolution>,
    variable_attempts: StringHashMap<Vec<VariableAttempt>>,
    equation_solver: EquationSolver,
    observation_count: u32,
    function_call_results: StringHashMap<i64>,
}

impl MathEngine {
    /// The solution cache, by request key.
    pub closed spec fn sols(&self) -> Map<Seq<char>, MathSolution> {
        self.solutions@
    }

    /// The attempt ledger, by variable name.
    pub closed spec fn atts(&self) -> Map<Seq<char>, Vec<VariableAttempt>> {
        self.variable_attempts@
    }

    /// The remembered function results, by function name.
    pub closed spec fn fresults(&self) -> Map<Seq<char>, i64> {
        self.function_call_results@
    }

    /// The diagnostic observation counter.
    pub closed spec fn obs(&self) -> u32 {
        self.observation_count
    }

    /// A fresh engine with nothing cached and nothing attempted.
    pub fn new_empty() -> (e: Self)
        ensures
            e.sols() == Map::<Seq<char>, MathSolution>::empty(),
            e.atts() == Map::<Seq<char>, Vec<VariableAttempt>>::empty(),
            e.obs() == 0,
    {
        MathEngine::new(StringHashMap::new(), StringHashMap::new())
    }

    pub fn new(
        solutions: StringHashMap<MathSolution>,
        variable_attempts: StringHashMap<Vec<VariableAttempt>>,
    ) -> (e: Self)
        ensures
            e.sols() == solutions@,
            e.atts() == variable_attempts@,
            e.obs() == 0,
            e.fresults() == Map::<Seq<char>, i64>::empty(),
    {
        MathEngine {
            solutions,
            variable_attempts,
            equation_solver: EquationSolver::new(),
            observation_count: 0,
            function_call_results: StringHashMap::new(),
        }
    }

    /// The composite request key of a solve call.
    pub fn create_cache_key(
        &self,
        target: i64,
        inputs: &Vec<i64>,
        class_name: &str,
        var_name: &str,
    ) -> (r: String)
        ensures
            r@ == cache_key_chars(class_name@, var_name@, target, inputs@),
    {
        let dash = "-";
        proof {
            reveal_strlit("-");
        }
        let mut s = class_name.to_owned();
        s.append(dash);
        s.append(var_name);
        s.append(dash);
        let t = fx_to_string(target);
        s.append(t.as_str());
        s.append(dash);
        let joined = join_inputs_str(inputs);
        s.append(joined.as_str());
        s
    }

    /// Builds the formula map for a variable: each input value maps to its
    /// own rendering, and each previously attempted result to the first
    /// formula recorded for it.
    fn build_formula_map(&self, var_name: &str, inputs: &Vec<i64>) -> (r: StringHashMap<String>)
        ensures
            chars_map(r@) == formula_map_spec(attempts_of(self.atts(), var_name@), inputs@),
    {
        let mut m: StringHashMap<String> = StringHashMap::new();
        proof {
            assert(chars_map(m@) =~= seed_map(inputs@.take(0)));
        }
        let mut i: usize = 0;
        while i < inputs.len()
            invariant
                i <= inputs.len(),
                chars_map(m@) == seed_map(inputs@.take(i as int)),
            decreases inputs.len() - i,
        {
            let key = fx_to_string(inputs[i]);
            let val = fx_to_string(inputs[i]);
            let ghost before = m@;
            m.insert(key, val);
            proof {
                assert(inputs@.take(i + 1).drop_last() =~= inputs@.take(i as int));
                assert(inputs@.take(i + 1).last() == inputs@[i as int]);
                assert(chars_map(m@) =~= chars_map(before).insert(
                    fx_chars(inputs@[i as int] as int),
                    fx_chars(inputs@[i as int] as int),
                ));
            }
            i = i + 1;
        }
        proof {
            assert(inputs@.take(inputs@.len() as int) =~= inputs@);
        }
        let attempts: Vec<VariableAttempt> = match self.variable_attempts.get(var_name) {
            Some(list) => clone_attempts(list),
            None => Vec::new(),
        };
        proof {
            assert(attempts@ =~= attempts_of(self.atts(), var_name@));
        }
        let ghost atts = attempts@;
        let mut j: usize = 0;
        while j < attempts.len()
            invariant
                j <= attempts.len(),
                atts == attempts@,
                chars_map(m@) == overlay(seed_map(inputs@), atts.take(j as int)),
            decreases attempts.len() - j,
        {
            let a = &attempts[j];
            proof {
                assert(atts.take(j + 1).drop_last() =~= atts.take(j as int));
                assert(atts.take(j + 1).last() == atts[j as int]);
            }
            match &a.formula {
                Some(f) => {
                    let key = fx_to_string(a.result);
                    if !m.contains_key(key.as_str()) {
                        let ghost before = m@;
                        m.insert(key, f.clone());
                        proof {
                            assert(chars_map(m@) =~= chars_map(before).insert(
                                fx_chars(atts[j as int].result as int),
                                atts[j as int].formula->0@,
                            ));
                        }
                    }
                },
                None => {},
            }
            j = j + 1;
        }
        proof {
            assert(atts.take(atts.len() as int) =~= atts);
        }
        m
    }

    /// Filters the generated operations of a variable down to those whose
    /// equation string was never recorded for it.
    fn get_untried_operations_with_formulas(
        &self,
        var_name: &str,
        inputs: &Vec<i64>,
        formula_map: &StringHashMap<String>,
    ) -> (r: Vec<Operation>)
        ensures
            views_of(r@) == untried_views(
                universe_views(inputs@, chars_map(formula_map@)),
                attempts_of(self.atts(), var_name@),
            ),
    {
        let attempts: Vec<VariableAttempt> = match self.variable_attempts.get(var_name) {
            Some(list) => clone_attempts(list),
            None => Vec::new(),
        };
        proof {
            assert(attempts@ =~= attempts_of(self.atts(), var_name@));
        }
        let all_ops = self.equation_solver.generate_all_operations_with_formulas(
            inputs,
            formula_map,
        );
        proof {
            assert(views_of(all_ops@) =~= universe_views(inputs@, chars_map(formula_map@)));
        }
        let ghost uv = universe_views(inputs@, chars_map(formula_map@));
        let mut out: Vec<Operation> = Vec::new();
        let mut i: usize = 0;
        while i < all_ops.len()
            invariant
                i <= all_ops.len(),
                views_of(all_ops@) == uv,
                attempts@ == attempts_of(self.atts(), var_name@),
                views_of(out@) == untried_views(uv.take(i as int), attempts@),
            decreases all_ops.len() - i,
        {
            proof {
                assert(uv.take(i + 1).drop_last() =~= uv.take(i as int));
                assert(uv.take(i + 1).last() == uv[i as int]);
                assert(uv[i as int] == views_of(all_ops@)[i as int]);
            }
            let was_tried = contains_equation(&attempts, &all_ops[i].equation);
            if !was_tried {
                let op = clone_operation(&all_ops[i]);
                out.push(op);
                proof {
                    assert(views_of(out@) =~= untried_views(uv.take(i + 1), attempts@));
                }
            } else {
                proof {
                    assert(views_of(out@) =~= untried_views(uv.take(i + 1), attempts@));
                }
            }
            i = i + 1;
        }
        proof {
            assert(uv.take(uv.len() as int) =~= uv);
        }
        out
    }

    /// Finds an exact hit for the target: the first untried operation
    /// whose result equals it, else the first operation of the whole
    /// universe, else a zero-accuracy placeholder.
    fn find_exact_solution(
        &self,
        target: i64,
        inputs: &Vec<i64>,
        untried_ops: &Vec<Operation>,
    ) -> (r: MathSolution)
        ensures
            ({
                let uvs = views_of(untried_ops@);
                let alls = universe_views(inputs@, Map::empty());
                let ui = first_exact(uvs, target, 0);
                let ai = first_exact(alls, target, 0);
                &&& r.timestamp == 0
                &&& r.attempts == 1
                &&& (if ui >= 0 {
                    &&& r.result == target
                    &&& r.accuracy == ACC_PERFECT
                    &&& r.equation@ == uvs[ui].equation
                    &&& r.formula matches Some(f) && f@ == uvs[ui].formula
                } else if ai >= 0 {
                    &&& r.result == target
                    &&& r.accuracy == ACC_PERFECT
                    &&& r.equation@ == alls[ai].equation
                    &&& r.formula matches Some(f) && f@ == alls[ai].formula
                } else {
                    &&& r.accuracy == 0
                    &&& (if inputs@.len() > 0 {
                        &&& r.result == inputs@[0]
                        &&& r.equation@ == fx_chars(inputs@[0] as int)
                        &&& r.formula matches Some(f) && f@ == fx_chars(inputs@[0] as int)
                    } else {
                        &&& r.result == target
                        &&& r.equation@ == fx_chars(target as int)
                        &&& r.formula matches Some(f) && f@ == fx_chars(target as int)
                    })
                })
            }),
    {
        if let Some(i) = find_exact_index(untried_ops, target) {
            proof {
                assert(views_of(untried_ops@)[i as int] == opv(untried_ops@[i as int]));
            }
            let op = &untried_ops[i];
            return MathSolution {
                result: target,
                equation: op.equation.clone(),
                accuracy: ACC_PERFECT,
                timestamp: 0,
                attempts: 1,
                formula: Some(op.formula.clone()),
            };
        }
        let all_ops = self.equation_solver.generate_all_operations(inputs);
        proof {
            assert(views_of(all_ops@) =~= universe_views(inputs@, chars_map(Map::empty())));
            assert(chars_map(Map::empty()) =~= Map::<Seq<char>, Seq<char>>::empty());
            assert(views_of(all_ops@) =~= universe_views(inputs@, Map::empty()));
        }
        if let Some(i) = find_exact_index(&all_ops, target) {
            proof {
                assert(views_of(all_ops@)[i as int] == opv(all_ops@[i as int]));
            }
            let op = &all_ops[i];
            return MathSolution {
                result: target,
                equation: op.equation.clone(),
                accuracy: ACC_PERFECT,
                timestamp: 0,
                attempts: 1,
                formula: Some(op.formula.clone()),
            };
        }
        if inputs.len() > 0 {
            let s = fx_to_string(inputs[0]);
            MathSolution {
                result: inputs[0],
                equation: s.clone(),
                accuracy: 0,
                timestamp: 0,
                attempts: 1,
                formula: Some(s),
            }
        } else {
            let s = fx_to_string(target);
            MathSolution {
                result: target,
                equation: s.clone(),
                accuracy: 0,
                timestamp: 0,
                attempts: 1,
                formula: Some(s),
            }
        }
    }

    /// Finds the closest approximation: the first input as a baseline,
    /// improved by the best untried operation and then by the best
    /// operation of the whole universe, each only when strictly better;
    /// within a phase a tie keeps the later operation.
    fn find_best_approximation(
        &self,
        target: i64,
        inputs: &Vec<i64>,
        untried_ops: &Vec<Operation>,
    ) -> (r: MathSolution)
        ensures
            ({
                let uvs = views_of(untried_ops@);
                let alls = universe_views(inputs@, Map::empty());
                &&& r.timestamp == 0
                &&& r.attempts == 1
                &&& (if inputs@.len() == 0 {
                    &&& r.result == target
                    &&& r.accuracy == ACC_PERFECT
                    &&& r.equation@ == fx_chars(target as int)
                    &&& r.formula matches Some(f) && f@ == fx_chars(target as int)
                } else {
                    let pick = approx_pick(uvs, alls, target, inputs@[0]);
                    &&& r.result == pick.result
                    &&& r.accuracy as int == pick.accuracy
                    &&& r.equation@ == pick.equation
                    &&& r.formula matches Some(f) && f@ == pick.formula
                })
            }),
    {
        if inputs.len() == 0 {
            let s = fx_to_string(target);
            return MathSolution {
                result: target,
                equation: s.clone(),
                accuracy: ACC_PERFECT,
                timestamp: 0,
                attempts: 1,
                formula: Some(s),
            };
        }
        let base_str = fx_to_string(inputs[0]);
        let mut best = MathSolution {
            result: inputs[0],
            equation: base_str.clone(),
            accuracy: calculate_accuracy(inputs[0], target),
            timestamp: 0,
            attempts: 1,
            formula: Some(base_str),
        };
        if let Some(i) = last_max_index(untried_ops, target) {
            proof {
                assert(views_of(untried_ops@)[i as int] == opv(untried_ops@[i as int]));
            }
            let acc = calculate_accuracy(untried_ops[i].result, target);
            if acc > best.accuracy {
                let op = &untried_ops[i];
                best = MathSolution {
                    result: op.result,
                    equation: op.equation.clone(),
                    accuracy: acc,
                    timestamp: 0,
                    attempts: 1,
                    formula: Some(op.formula.clone()),
                };
            }
        }
        let all_ops = self.equation_solver.generate_all_operations(inputs);
        proof {
            assert(views_of(all_ops@) =~= universe_views(inputs@, chars_map(Map::empty())));
            assert(chars_map(Map::empty()) =~= Map::<Seq<char>, Seq<char>>::empty());
            assert(views_of(all_ops@) =~= universe_views(inputs@, Map::empty()));
        }
        if let Some(i) = last_max_index(&all_ops, target) {
            proof {
                assert(views_of(all_ops@)[i as int] == opv(all_ops@[i as int]));
            }
            let acc = calculate_accuracy(all_ops[i].result, target);
            if acc > best.accuracy {
                let op = &all_ops[i];
                best = MathSolution {
                    result: op.result,
                    equation: op.equation.clone(),
                    accuracy: acc,
                    timestamp: 0,
                    attempts: 1,
                    formula: Some(op.formula.clone()),
                };
            }
        }
        best
    }

    /// Appends the chosen solution to the variable's attempt ledger.
    fn remember_variable_attempt(&mut self, var_name: &str, solution: &MathSolution, now_ms: u64)
        ensures
            final(self).sols() == old(self).sols(),
            final(self).fresults() == old(self).fresults(),
            final(self).obs() == old(self).obs(),
            attempts_of(final(self).atts(), var_name@) == attempts_of(
                old(self).atts(),
                var_name@,
            ).push(
                VariableAttempt {
                    equation: solution.equation,
                    result: solution.result,
                    timestamp: now_ms,
                    accuracy: solution.accuracy,
                    formula: solution.formula,
                },
            ),
            final(self).atts().contains_key(var_name@),
            final(self).atts().remove(var_name@) == old(self).atts().remove(var_name@),
    {
        let attempt = VariableAttempt {
            equation: solution.equation.clone(),
            result: solution.result,
            timestamp: now_ms,
            accuracy: solution.accuracy,
            formula: clone_string_opt(&solution.formula),
        };
        let mut list: Vec<VariableAttempt> = match self.variable_attempts.get(var_name) {
            Some(l) => clone_attempts(l),
            None => Vec::new(),
        };
        proof {
            assert(list@ =~= attempts_of(self.atts(), var_name@));
        }
        list.push(attempt);
        self.variable_attempts.insert(var_name.to_owned(), list);
        proof {
            assert(final(self).atts().remove(var_name@) =~= old(self).atts().remove(var_name@));
        }
    }

    /// Solves for a target over the inputs: returns a cached perfect
    /// solution unchanged if one exists for the request key; otherwise
    /// searches for an exact hit, falls back to the closest
    /// approximation, records the attempt in the ledger, and caches the
    /// solution unless one at least as accurate is already cached.
    #[verifier::rlimit(80)]
    pub fn solve_target(
        &mut self,
        target: i64,
        inputs: &Vec<i64>,
        var_name: &str,
        class_name: &str,
        now_ms: u64,
    ) -> (r: MathSolution)
        ensures
            final(self).obs() as int == (old(self).obs() + 1) % 0x1_0000_0000,
            final(self).fresults() == old(self).fresults(),
            ({
                let key = cache_key_chars(class_name@, var_name@, target, inputs@);
                let sols0 = old(self).sols();
                if sols0.contains_key(key) && sols0[key].accuracy == ACC_PERFECT {
                    &&& r == sols0[key]
                    &&& final(self).sols() == sols0
                    &&& final(self).atts() == old(self).atts()
                } else {
                    let atts0 = attempts_of(old(self).atts(), var_name@);
                    let cm = formula_map_spec(atts0, inputs@);
                    let uvs = untried_views(universe_views(inputs@, cm), atts0);
                    let alls = universe_views(inputs@, Map::empty());
                    let pick = solve_pick(uvs, alls, target, inputs@);
                    &&& r.result == pick.result
                    &&& r.accuracy as int == pick.accuracy
                    &&& r.equation@ == pick.equation
                    &&& r.formula matches Some(f) && f@ == pick.formula
                    &&& r.timestamp == now_ms
                    &&& r.attempts == 1
                    &&& attempts_of(final(self).atts(), var_name@) == atts0.push(
                        VariableAttempt {
                            equation: r.equation,
                            result: r.result,
                            timestamp: now_ms,
                            accuracy: r.accuracy,
                            formula: r.formula,
                        },
                    )
                    &&& final(self).atts().contains_key(var_name@)
                    &&& final(self).atts().remove(var_name@) == old(self).atts().remove(
                        var_name@,
                    )
                    &&& final(self).sols() == (if !sols0.contains_key(key) || r.accuracy
                        > sols0[key].accuracy {
                        sols0.insert(key, r)
                    } else {
                        sols0
                    })
                }
            }),
    {
        if self.observation_count < 0xffff_ffff {
            self.observation_count = self.observation_count + 1;
        } else {
            self.observation_count = 0;
        }
        let cache_key = self.create_cache_key(target, inputs, class_name, var_name);
        let cached_perfect = match self.solutions.get(cache_key.as_str()) {
            Some(c) => c.accuracy == ACC_PERFECT,
            None => false,
        };
        if cached_perfect {
            if let Some(cached) = self.solutions.get(cache_key.as_str()) {
                return clone_solution(cached);
            }
        }
        let formula_map = self.build_formula_map(var_name, inputs);
        let untried_ops = self.get_untried_operations_with_formulas(
            var_name,
            inputs,
            &formula_map,
        );
        let mut solution = self.find_exact_solution(target, inputs, &untried_ops);
        if solution.accuracy < ACC_PERFECT {
            solution = self.find_best_approximation(target, inputs, &untried_ops);
        }
        solution.timestamp = now_ms;
        self.remember_variable_attempt(var_name, &solution, now_ms);
        let replace = match self.solutions.get(cache_key.as_str()) {
            Some(c) => solution.accuracy > c.accuracy,
            None => true,
        };
        if replace {
            let copy = clone_solution(&solution);
            self.solutions.insert(cache_key, copy);
        }
        solution
    }

    /// Evaluates an inline expression against a variable store: a
    /// `calc(..)` call, a plain number, a plain numeric variable, or one
    /// binary operation.
    pub fn solve_expression(
        &self,
        expression: &str,
        variables: &StringHashMap<StoredVariable>,
    ) -> (r: Result<i64, EvalError>)
        ensures
            r == solve_expr_spec(expression@, variables@),
    {
        eval_expression(expression, variables)
    }

    /// Loads one persisted solution into the cache under its request
    /// key.
    pub fn load_solution(&mut self, key: &str, solution: MathSolution)
        ensures
            final(self).sols() == old(self).sols().insert(key@, solution),
            final(self).atts() == old(self).atts(),
            final(self).fresults() == old(self).fresults(),
            final(self).obs() == old(self).obs(),
    {
        self.solutions.insert(key.to_owned(), solution);
    }

    /// Loads one variable's persisted attempt history into the ledger.
    pub fn load_attempts(&mut self, var_name: &str, attempts: Vec<VariableAttempt>)
        ensures
            final(self).atts() == old(self).atts().insert(var_name@, attempts),
            final(self).sols() == old(self).sols(),
            final(self).fresults() == old(self).fresults(),
            final(self).obs() == old(self).obs(),
    {
        self.variable_attempts.insert(var_name.to_owned(), attempts);
    }

    /// Remembers a function call's numeric result under its name.
    pub fn store_function_result(&mut self, function_name: &str, result: i64)
        ensures
            final(self).fresults() == old(self).fresults().insert(function_name@, result),
            final(self).sols() == old(self).sols(),
            final(self).atts() == old(self).atts(),
            final(self).obs() == old(self).obs(),
    {
        self.function_call_results.insert(function_name.to_owned(), result);
    }

    /// Looks up a remembered function result.
    pub fn get_function_result(&self, function_name: &str) -> (r: Option<i64>)
        ensures
            match r {
                Some(v) => self.fresults().contains_key(function_name@)
                    && v == self.fresults()[function_name@],
                None => !self.fresults().contains_key(function_name@),
            },
    {
        match self.function_call_results.get(function_name) {
            Some(v) => Some(*v),
            None => None,
        }
    }

    /// The solution cache.
    pub fn get_solutions(&self) -> (r: &StringHashMap<MathSolution>)
        ensures
            r@ == self.sols(),
    {
        &self.solutions
    }

    /// The attempt ledger.
    pub fn get_variable_attempts(&self) -> (r: &StringHashMap<Vec<VariableAttempt>>)
        ensures
            r@ == self.atts(),
    {
        &self.variable_attempts
    }
}

/// An exact copy of an optional string.
pub fn clone_string_opt(o: &Option<String>) -> (r: Option<String>)
    ensures
        r == *o,
{
    match o {
        Some(s) => Some(s.clone()),
        None => None,
    }
}

/// An exact copy of a solution.
pub fn clone_solution(s: &MathSolution) -> (r: MathSolution)
    ensures
        r == *s,
{
    MathSolution {
        result: s.result,
        equation: s.equation.clone(),
        accuracy: s.accuracy,
        timestamp: s.timestamp,
        attempts: s.attempts,
        formula: clone_string_opt(&s.formula),
    }
}

/// An exact copy of an attempt record.
pub fn clone_attempt(a: &VariableAttempt) -> (r: VariableAttempt)
    ensures
        r == *a,
{
    VariableAttempt {
        equation: a.equation.clone(),
        result: a.result,
        timestamp: a.timestamp,
        accuracy: a.accuracy,
        formula: clone_string_opt(&a.formula),
    }
}

/// An exact copy of an attempt list.
pub fn clone_attempts(v: &Vec<VariableAttempt>) -> (r: Vec<VariableAttempt>)
    ensures
        r@ == v@,
{
    let mut out: Vec<VariableAttempt> = Vec::new();
    let mut i: usize = 0;
    while i < v.len()
        invariant
            i <= v.len(),
            out@ =~= v@.take(i as int),
        decreases v.len() - i,
    {
        out.push(clone_attempt(&v[i]));
        proof {
            assert(out@ =~= v@.take(i + 1));
        }
        i = i + 1;
    }
    proof {
        assert(v@.take(v@.len() as int) =~= v@);
    }
    out
}

/// An exact copy of an operation.
pub fn clone_operation(op: &Operation) -> (r: Operation)
    ensures
        r == *op,
{
    Operation { result: op.result, equation: op.equation.clone(), formula: op.formula.clone() }
}


/// Concatenation of character sequences is associative.
proof fn sc_assoc(a: Seq<char>, b: Seq<char>, c: Seq<char>)
    ensures
        (a + b) + c == a + (b + c),
{
    assert((a + b) + c =~= a + (b + c));
}


/// The inputs rendered and joined with commas.
#[verifier::rlimit(40)]
fn join_inputs_str(inputs: &Vec<i64>) -> (s: String)
    ensures
        s@ == inputs_join(inputs@),
{
    if inputs.len() == 0 {
        let s = String::new();
        proof {
            assert(s@ =~= inputs_join(inputs@));
        }
        return s;
    }
    let mut s = fx_to_string(inputs[0]);
    proof {
        assert(inputs@.take(1).len() == 1);
        assert(inputs@.take(1)[0] == inputs@[0]);
        assert(s@ == inputs_join(inputs@.take(1)));
    }
    let mut i: usize = 1;
    while i < inputs.len()
        invariant
            1 <= i <= inputs.len(),
            inputs.len() >= 1,
            s@ == inputs_join(inputs@.take(i as int)),
        decreases inputs.len() - i,
    {
        let ghost jv = inputs_join(inputs@.take(i as int));
        s.append(",");
        let v = fx_to_string(inputs[i]);
        s.append(v.as_str());
        proof {
            let fv = fx_chars(inputs@[i as int] as int);
            assert(inputs@.take(i + 1).drop_last() =~= inputs@.take(i as int));
            assert(inputs@.take(i + 1).last() == inputs@[i as int]);
            assert(inputs@.take(i + 1).len() == i + 1 >= 2);
            assert(s@ == jv + ","@ + fv);
            assert(inputs_join(inputs@.take(i + 1)) == inputs_join(
                inputs@.take(i + 1).drop_last(),
            ) + ","@ + fx_chars(inputs@.take(i + 1).last() as int));
            assert(inputs_join(inputs@.take(i + 1)) == jv + ","@ + fv);
        }
        i = i + 1;
    }
    proof {
        assert(inputs@.take(inputs@.len() as int) =~= inputs@);
    }
    s
}

/// Whether any recorded attempt holds exactly this equation string.
fn contains_equation(attempts: &Vec<VariableAttempt>, eq: &String) -> (r: bool)
    ensures
        r == tried(attempts@, eq@),
{
    let mut i: usize = 0;
    while i < attempts.len()
        invariant
            i <= attempts.len(),
            forall|k: int| 0 <= k < i ==> (#[trigger] attempts@[k]).equation@ != eq@,
        decreases attempts.len() - i,
    {
        if attempts[i].equation == *eq {
            return true;
        }
        i = i + 1;
    }
    false
}

/// The first index whose result equals the target.
fn find_exact_index(ops: &Vec<Operation>, target: i64) -> (r: Option<usize>)
    ensures
        ({
            let fe = first_exact(views_of(ops@), target, 0);
            match r {
                Some(i) => fe == i as int && i < ops@.len(),
                None => fe == -1,
            }
        }),
{
    let mut i: usize = 0;
    while i < ops.len()
        invariant
            i <= ops.len(),
            first_exact(views_of(ops@), target, 0) == first_exact(views_of(ops@), target, i as int),
        decreases ops.len() - i,
    {
        if ops[i].result == target {
            return Some(i);
        }
        i = i + 1;
    }
    None
}

/// The index of the best-accuracy operation, keeping the later one on a
/// tie.
fn last_max_index(ops: &Vec<Operation>, target: i64) -> (r: Option<usize>)
    ensures
        ({
            let lm = last_max(views_of(ops@), target, 0, -1);
            match r {
                Some(i) => lm == i as int && i < ops@.len(),
                None => lm == -1 && ops@.len() == 0,
            }
        }),
{
    if ops.len() == 0 {
        return None;
    }
    let mut cur: usize = 0;
    let mut cur_acc: u32 = calculate_accuracy(ops[0].result, target);
    let mut i: usize = 1;
    while i < ops.len()
        invariant
            1 <= i <= ops.len(),
            cur < i,
            ops@.len() > 0,
            cur_acc as int == acc_spec(ops@[cur as int].result as int, target as int),
            last_max(views_of(ops@), target, 0, -1) == last_max(
                views_of(ops@),
                target,
                i as int,
                cur as int,
            ),
        decreases ops.len() - i,
    {
        let acc = calculate_accuracy(ops[i].result, target);
        if acc >= cur_acc {
            cur = i;
            cur_acc = acc;
        }
        i = i + 1;
    }
    Some(cur)
}

} // verus!
