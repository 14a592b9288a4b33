//! The shared data model: solutions, attempt records, stored variables,
//! and the accuracy metric that scores a candidate result against a
//! target.

use vstd::prelude::*;

verus! {

/// Accuracy is measured in hundredths of a percent; this value means an
/// exact match.
pub const ACC_PERFECT: u32 = 10000;

/// A solution found for a target: the chosen expression, its value, and
/// how close it came.
#[derive(Clone, Debug)]
pub struct MathSolution {
    pub result: i64,
    pub equation: String,
    pub accuracy: u32,
    pub timestamp: u64,
    pub attempts: u32,
    pub formula: Option<String>,
}

/// One recorded attempt at a variable: an expression that was evaluated
/// for it, with its value and accuracy.
#[derive(Clone, Debug)]
pub struct VariableAttempt {
    pub equation: String,
    pub result: i64,
    pub timestamp: u64,
    pub accuracy: u32,
    pub formula: Option<String>,
}

/// A value a named variable can hold.
#[derive(Clone, Debug)]
pub enum VariableValue {
    Number(i64),
    Text(String),
    Boolean(bool),
    FunctionResult(String),
}

/// A named variable with its value and provenance.
#[derive(Clone, Debug)]
pub struct StoredVariable {
    pub name: String,
    pub value: VariableValue,
    pub timestamp: u64,
    pub source_equation: Option<String>,
}

/// A cached function template, before or after being built.
#[derive(Clone, Debug)]
pub struct CachedTemplate {
    pub name: String,
    pub func_type: String,
    pub parameter_count: usize,
    pub timestamp: u64,
    pub is_built: bool,
    pub file_path: Option<String>,
}

/// One callable variant of a built function.
#[derive(Clone, Debug)]
pub struct FunctionVariant {
    pub parameter_count: usize,
    pub parameter_pattern: String,
    pub rust_function_name: String,
}

/// A function that was built, with its callable variants.
#[derive(Clone, Debug)]
pub struct BuiltFunction {
    pub name: String,
    pub variants: Vec<FunctionVariant>,
    pub timestamp: u64,
}

/// The kind of control-flow pattern a cached pattern describes.
#[derive(Clone, Copy, Debug, PartialEq, Eq)]
pub enum PatternType {
    CountLoop,
    RangeLoop,
    WhileLoop,
    ConditionalChain,
    NestedStructure,
    Hybrid,
}

/// A console line for a user interface to display.
#[derive(Clone, Debug)]
pub struct ConsoleMessage {
    pub message: String,
    pub timestamp: u64,
    pub level: String,
}

/// Why a function could not be built.
#[derive(Clone, Debug)]
pub enum FunctionError {
    /// The requested function type is not one the builder knows.
    UnknownType,
    /// The function type is known but not supported yet.
    Unsupported,
}

/// The accuracy of a candidate result against a target: a full score for
/// an exact match, else the relative error against
/// `max(|target|, 100.00)`, scaled to hundredths of a percent, rounded up
/// and clamped at zero. An inexact candidate never scores the full value.
pub open spec fn acc_spec(actual: int, target: int) -> int {
    if actual == target {
        ACC_PERFECT as int
    } else {
        let d = vstd::math::abs(actual - target) as int;
        let m = vstd::math::max(vstd::math::abs(target) as int, ACC_PERFECT as int);
        let p = (d * (ACC_PERFECT as int) + m - 1) / m;
        if p >= ACC_PERFECT as int {
            0
        } else {
            (ACC_PERFECT as int) - p
        }
    }
}

/// Scores a candidate result against a target.
pub fn calculate_accuracy(actual: i64, target: i64) -> (r: u32)
    ensures
        r as int == acc_spec(actual as int, target as int),
        r <= ACC_PERFECT,
        (r == ACC_PERFECT) <==> (actual == target),
{
    if actual == target {
        return ACC_PERFECT;
    }
    let d: i128 = if actual >= target {
        actual as i128 - target as i128
    } else {
        target as i128 - actual as i128
    };
    let at: i128 = if target >= 0 {
        target as i128
    } else {
        -(target as i128)
    };
    let m: i128 = if at >= ACC_PERFECT as i128 {
        at
    } else {
        ACC_PERFECT as i128
    };
    let num: i128 = d * (ACC_PERFECT as i128) + m - 1;
    assert(d * (ACC_PERFECT as int) <= 0x400000000000000000000000000000 && d >= 1)
        by (nonlinear_arith)
        requires
            1 <= d <= 0x40000000000000000,
    ;
    let p: i128 = num / m;
    proof {
        let di = d as int;
        let mi = m as int;
        assert(p == (di * (ACC_PERFECT as int) + mi - 1) / mi);
        assert(p >= 1) by (nonlinear_arith)
            requires
                p == (di * (ACC_PERFECT as int) + mi - 1) / mi,
                di >= 1,
                mi >= ACC_PERFECT as int,
        ;
        assert(p <= di * (ACC_PERFECT as int)) by (nonlinear_arith)
            requires
                p == (di * (ACC_PERFECT as int) + mi - 1) / mi,
                di >= 1,
                mi >= 1,
                di * (ACC_PERFECT as int) >= 1,
        ;
    }
    if p >= ACC_PERFECT as i128 {
        0
    } else {
        (ACC_PERFECT as i128 - p) as u32
    }
}

} // verus!
