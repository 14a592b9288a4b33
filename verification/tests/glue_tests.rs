//! Tests of the function builder, the print-statement extractor and the
//! loop bookkeeping.

use quantum_solver::function_builder::FunctionBuilder;
use quantum_solver::function_executor::FunctionExecutor;
use quantum_solver::loop_executor::LoopExecutor;
use quantum_solver::types::FunctionError;

#[test]
fn test_build_loop_function_variants() {
    let builder = FunctionBuilder::new();
    let built = builder.build_function("Stepper", "loop", 1, 42).unwrap();
    assert_eq!(built.name, "Stepper");
    assert_eq!(built.timestamp, 42);
    assert_eq!(built.variants.len(), 3);
    assert_eq!(built.variants[0].parameter_pattern, "count");
    assert_eq!(built.variants[0].rust_function_name, "stepper_count");
    assert_eq!(built.variants[1].parameter_pattern, "range");
    assert_eq!(built.variants[2].parameter_count, 3);
}

#[test]
fn test_build_function_rejects_unknown_types() {
    let builder = FunctionBuilder::new();
    assert!(matches!(
        builder.build_function("C", "conditional", 1, 0),
        Err(FunctionError::Unsupported)
    ));
    assert!(matches!(
        builder.build_function("C", "mystery", 1, 0),
        Err(FunctionError::UnknownType)
    ));
}

#[test]
fn test_generate_loop_code_names_functions() {
    let builder = FunctionBuilder::new();
    let code = builder.generate_loop_code("Stepper");
    assert!(code.contains("stepper_count"));
    assert!(code.contains("stepper_range"));
    assert!(code.contains("stepper_step"));
}

#[test]
fn test_extract_println_content() {
    let executor = FunctionExecutor::new();
    let got = executor.extract_println_content("println!(\"hi\")");
    assert_eq!(got, Some("\"hi".to_string()));
    assert_eq!(executor.extract_println_content("print(\"hi\")"), None);
}

#[test]
fn test_loop_executor_signals() {
    let mut loops = LoopExecutor::new();
    assert!(!loops.is_in_loop());

    loops.signal_break();
    assert!(!loops.should_break);

    loops.enter_loop();
    assert!(loops.is_in_loop());
    loops.signal_break();
    assert!(loops.should_break);
    loops.signal_continue();
    assert!(loops.should_skip_iteration());
    loops.exit_loop();
    assert!(!loops.is_in_loop());
}
