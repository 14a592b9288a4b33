//! Building of loop-function variants: for a named function it produces
//! the three callable variants (count, range, step) and the source text
//! of the generated loop helpers. Writing the generated files to disk is
//! the caller's concern.

use vstd::prelude::*;
use crate::types::{BuiltFunction, FunctionVariant, FunctionError};
use crate::text::{lower_of, lowercase, str_eq_str};

verus! {

/// The source text generated for a loop function, given the lowercased
/// function name.
pub open spec fn loop_code_chars(n: Seq<char>) -> Seq<char> {
    "pub fn "@ + n + "_count(count: u32, body: &str) {\n    for i in 0..count {\n        let _ = (i, body);\n    }\n}\n\npub fn "@
        + n
        + "_range(start: u32, end: u32, body: &str) {\n    for i in start..end {\n        let _ = (i, body);\n    }\n}\n\npub fn "@
        + n
        + "_step(start: u32, end: u32, step: u32, body: &str) {\n    let mut i = start;\n    while i < end {\n        let _ = (i, body);\n        i += step;\n    }\n}\n"@
}

/// Builds function variants from a name and a function type.
pub struct FunctionBuilder {
    /// The directory the generated sources are meant for.
    pub functions_dir: String,
}

impl FunctionBuilder {
    pub fn new() -> (r: Self)
        ensures
            r.functions_dir@ == "functions"@,
    {
        FunctionBuilder { functions_dir: "functions".to_owned() }
    }

    /// Builds the variants of a function: a `loop` function gets the
    /// three variants (count, range, step) named after its lowercased
    /// name; a `conditional` function is not supported yet, and any other
    /// type is unknown.
    pub fn build_function(&self, name: &str, func_type: &str, _param_count: usize, now_ms: u64)
        -> (r: Result<BuiltFunction, FunctionError>)
        ensures
            func_type@ == "loop"@ <==> r is Ok,
            r matches Ok(f) ==> {
                &&& f.name@ == name@
                &&& f.timestamp == now_ms
                &&& f.variants@.len() == 3
                &&& f.variants@[0].parameter_count == 1
                &&& f.variants@[0].parameter_pattern@ == "count"@
                &&& f.variants@[0].rust_function_name@ == lower_of(name@) + "_count"@
                &&& f.variants@[1].parameter_count == 2
                &&& f.variants@[1].parameter_pattern@ == "range"@
                &&& f.variants@[1].rust_function_name@ == lower_of(name@) + "_range"@
                &&& f.variants@[2].parameter_count == 3
                &&& f.variants@[2].parameter_pattern@ == "step"@
                &&& f.variants@[2].rust_function_name@ == lower_of(name@) + "_step"@
            },
            r matches Err(e) ==> (e is Unsupported <==> func_type@ == "conditional"@),
    {
        if str_eq_str(func_type, "loop") {
            Ok(self.build_loop_function(name, now_ms))
        } else if str_eq_str(func_type, "conditional") {
            self.build_conditional_function(name)
        } else {
            Err(FunctionError::UnknownType)
        }
    }

    /// Conditional functions are recognized but cannot be built yet.
    pub fn build_conditional_function(&self, _name: &str) -> (r: Result<
        BuiltFunction,
        FunctionError,
    >)
        ensures
            r matches Err(e) && e is Unsupported,
    {
        Err(FunctionError::Unsupported)
    }

    /// Builds the three loop variants of a function.
    fn build_loop_function(&self, name: &str, now_ms: u64) -> (f: BuiltFunction)
        ensures
            f.name@ == name@,
            f.timestamp == now_ms,
            f.variants@.len() == 3,
            f.variants@[0].parameter_count == 1,
            f.variants@[0].parameter_pattern@ == "count"@,
            f.variants@[0].rust_function_name@ == lower_of(name@) + "_count"@,
            f.variants@[1].parameter_count == 2,
            f.variants@[1].parameter_pattern@ == "range"@,
            f.variants@[1].rust_function_name@ == lower_of(name@) + "_range"@,
            f.variants@[2].parameter_count == 3,
            f.variants@[2].parameter_pattern@ == "step"@,
            f.variants@[2].rust_function_name@ == lower_of(name@) + "_step"@,
    {
        let name_lower = lowercase(name);
        let mut count_name = name_lower.clone();
        count_name.append("_count");
        let mut range_name = name_lower.clone();
        range_name.append("_range");
        let mut step_name = name_lower.clone();
        step_name.append("_step");
        let mut variants: Vec<FunctionVariant> = Vec::new();
        variants.push(
            FunctionVariant {
                parameter_count: 1,
                parameter_pattern: "count".to_owned(),
                rust_function_name: count_name,
            },
        );
        variants.push(
            FunctionVariant {
                parameter_count: 2,
                parameter_pattern: "range".to_owned(),
                rust_function_name: range_name,
            },
        );
        variants.push(
            FunctionVariant {
                parameter_count: 3,
                parameter_pattern: "step".to_owned(),
                rust_function_name: step_name,
            },
        );
        BuiltFunction { name: name.to_owned(), variants, timestamp: now_ms }
    }

    /// The source text of the loop helpers generated for a function.
    pub fn generate_loop_code(&self, name: &str) -> (r: String)
        ensures
            r@ == loop_code_chars(lower_of(name@)),
    {
        let name_lower = lowercase(name);
        let mut s =
            "pub fn ".to_owned();
        s.append(name_lower.as_str());
        s.append(
            "_count(count: u32, body: &str) {\n    for i in 0..count {\n        let _ = (i, body);\n    }\n}\n\npub fn ",
        );
        s.append(name_lower.as_str());
        s.append(
            "_range(start: u32, end: u32, body: &str) {\n    for i in start..end {\n        let _ = (i, body);\n    }\n}\n\npub fn ",
        );
        s.append(name_lower.as_str());
        s.append(
            "_step(start: u32, end: u32, step: u32, body: &str) {\n    let mut i = start;\n    while i < end {\n        let _ = (i, body);\n        i += step;\n    }\n}\n",
        );
        s
    }
}

} // verus!
