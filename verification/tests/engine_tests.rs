//! Tests of the search engine, the accuracy metric, the generator's
//! guards and the inline expression evaluator. Values are fixed-point in
//! hundredth units: `2400` is `24.00`.

use quantum_solver::equation_solver::EquationSolver;
use quantum_solver::expression::{new_variable_store, store_number_variable, EvalError};
use quantum_solver::math_engine::MathEngine;
use quantum_solver::text::fx_to_string;
use quantum_solver::types::{calculate_accuracy, ACC_PERFECT};

#[test]
fn test_accuracy_exact_and_scaled() {
    assert_eq!(calculate_accuracy(2400, 2400), ACC_PERFECT);
    assert_eq!(calculate_accuracy(4500, 100000), 450);
    assert_eq!(calculate_accuracy(0, 5000), 5000);
    assert!(calculate_accuracy(i64::MAX, 0) == 0);
}

#[test]
fn test_render_fixed_point() {
    assert_eq!(fx_to_string(314), "3.14");
    assert_eq!(fx_to_string(310), "3.1");
    assert_eq!(fx_to_string(300), "3");
    assert_eq!(fx_to_string(-50), "-0.5");
    assert_eq!(fx_to_string(0), "0");
}

#[test]
fn test_generator_identity_per_input() {
    let solver = EquationSolver::new();
    let ops = solver.generate_all_operations(&vec![300]);
    let identity_count = ops.iter().filter(|op| op.equation == "3").count();
    assert_eq!(identity_count, 1);
}

#[test]
fn test_generator_zero_denominator_guard() {
    let solver = EquationSolver::new();
    let ops = solver.generate_all_operations(&vec![500, 0]);
    assert!(ops.iter().all(|op| op.equation != "5 / 0"));
    assert!(ops.iter().all(|op| op.equation != "5 % 0"));
    assert!(ops.iter().any(|op| op.equation == "5 + 0"));
}

#[test]
fn test_exact_match_priority() {
    let mut engine = MathEngine::new_empty();
    let solution = engine.solve_target(2400, &vec![300, 400, 200], "result", "Main", 0);
    assert_eq!(solution.accuracy, ACC_PERFECT);
    assert_eq!(solution.result, 2400);
}

#[test]
fn test_ledger_non_repetition() {
    let mut engine = MathEngine::new_empty();
    let first = engine.solve_target(2400, &vec![300, 400, 200], "x", "A", 0);
    let second = engine.solve_target(2400, &vec![300, 400, 200], "x", "B", 0);
    assert_eq!(first.accuracy, ACC_PERFECT);
    assert_eq!(second.accuracy, ACC_PERFECT);
    assert_ne!(first.equation, second.equation);
}

#[test]
fn test_cache_returns_perfect_solution_unchanged() {
    let mut engine = MathEngine::new_empty();
    let first = engine.solve_target(2400, &vec![300, 400, 200], "x", "Main", 5);
    let second = engine.solve_target(2400, &vec![300, 400, 200], "x", "Main", 9);
    assert_eq!(first.equation, second.equation);
    assert_eq!(first.timestamp, second.timestamp);
}

#[test]
fn test_approximation_fallback() {
    let mut engine = MathEngine::new_empty();
    let solution = engine.solve_target(100000, &vec![500, 900], "big", "Main", 0);
    assert!(solution.accuracy > 0);
    assert!(solution.accuracy < ACC_PERFECT);
    assert_eq!(solution.equation, "9 ^ 3");
    assert_eq!(solution.result, 72900);
}

#[test]
fn test_no_inputs_degenerates_to_target() {
    let mut engine = MathEngine::new_empty();
    let solution = engine.solve_target(1234, &vec![], "t", "Main", 0);
    assert_eq!(solution.accuracy, ACC_PERFECT);
    assert_eq!(solution.result, 1234);
    assert_eq!(solution.equation, "12.34");
}

#[test]
fn test_solve_expression_calc_two() {
    let engine = MathEngine::new_empty();
    let vars = new_variable_store();
    assert_eq!(engine.solve_expression("calc(2, 3)", &vars), Ok(500));
}

#[test]
fn test_solve_expression_calc_three_with_variable() {
    let engine = MathEngine::new_empty();
    let mut vars = new_variable_store();
    store_number_variable(&mut vars, "offset", 150, 0);
    assert_eq!(engine.solve_expression("calc(2, 3, offset)", &vars), Ok(650));
}

#[test]
fn test_solve_expression_number_and_variable() {
    let engine = MathEngine::new_empty();
    let mut vars = new_variable_store();
    store_number_variable(&mut vars, "x", 700, 0);
    assert_eq!(engine.solve_expression("3.14", &vars), Ok(314));
    assert_eq!(engine.solve_expression("x", &vars), Ok(700));
}

#[test]
fn test_solve_expression_binary_operators() {
    let engine = MathEngine::new_empty();
    let mut vars = new_variable_store();
    store_number_variable(&mut vars, "x", 700, 0);
    assert_eq!(engine.solve_expression("x + 1", &vars), Ok(800));
    assert_eq!(engine.solve_expression("x - 1", &vars), Ok(600));
    assert_eq!(engine.solve_expression("x * 2", &vars), Ok(1400));
    assert_eq!(engine.solve_expression("x / 2", &vars), Ok(350));
}

#[test]
fn test_solve_expression_errors() {
    let engine = MathEngine::new_empty();
    let mut vars = new_variable_store();
    store_number_variable(&mut vars, "x", 700, 0);
    assert_eq!(
        engine.solve_expression("calc(2, mystery)", &vars),
        Err(EvalError::UnresolvedParameter)
    );
    assert_eq!(
        engine.solve_expression("calc(2, f(3))", &vars),
        Err(EvalError::UnsupportedCall)
    );
    assert_eq!(engine.solve_expression("x / 0", &vars), Err(EvalError::DivisionByZero));
    assert_eq!(engine.solve_expression("gibberish", &vars), Err(EvalError::UnresolvedParameter));
}

#[test]
fn test_function_results_are_remembered() {
    let mut engine = MathEngine::new_empty();
    assert_eq!(engine.get_function_result("area"), None);
    engine.store_function_result("area", 1200);
    assert_eq!(engine.get_function_result("area"), Some(1200));
}

#[test]
fn test_generated_formula_substitution() {
    let mut engine = MathEngine::new_empty();
    let first = engine.solve_target(2400, &vec![300, 400, 200], "chain", "A", 0);
    assert_eq!(first.accuracy, ACC_PERFECT);
    assert!(first.formula.is_some());
}
