//! Inline expression evaluation, the engine's secondary entry point: a
//! `calc(a, b)` or `calc(a, b, c)` call summing its parameters, a plain
//! number, a plain variable, or one binary `+ - * /` between two
//! operands, each operand a number literal or a numeric variable.

use vstd::prelude::*;
use vstd::hash_map::StringHashMap;
use crate::fixed::{fits_val, fx_mul, fx_div, add_fx, sub_fx, mul_fx, div_fx};
use crate::memory::compact_solution::{num_start, num_end, num_val, num_b, is_digit,
    digits_end_x, digits_val_clamped};
use crate::text::{starts_with_chars, ends_with_chars, str_starts_with, str_ends_with};
use crate::types::{StoredVariable, VariableValue};

verus! {

/// Why an expression could not be evaluated.
#[derive(Clone, Copy, Debug, PartialEq, Eq)]
pub enum EvalError {
    /// A parameter names a variable that does not hold a number.
    NotNumeric,
    /// A parameter is a nested call, which is not supported.
    UnsupportedCall,
    /// A parameter is neither a number nor a known variable.
    UnresolvedParameter,
    /// The expression as a whole could not be resolved.
    UnresolvedOperand,
    /// A division by zero.
    DivisionByZero,
    /// An operand or a result leaves the representable range.
    OutOfRange,
}

/// Whether a character is blank space.
pub open spec fn is_space(c: char) -> bool {
    c == ' ' || c == '\t'
}

/// The first index at or after `i` that is not blank.
pub open spec fn ws_from(s: Seq<char>, i: int) -> int
    decreases s.len() - i,
{
    if 0 <= i < s.len() && is_space(s[i]) {
        ws_from(s, i + 1)
    } else {
        i
    }
}

/// The first bound at or before `j` with nothing blank before it.
pub open spec fn ws_until(s: Seq<char>, j: int) -> int
    decreases j,
{
    if 0 < j <= s.len() && is_space(s[j - 1]) {
        ws_until(s, j - 1)
    } else {
        j
    }
}

/// The string with leading and trailing blanks removed.
pub open spec fn trim_view(s: Seq<char>) -> Seq<char> {
    let a = ws_from(s, 0);
    let b = ws_until(s, s.len() as int);
    if a <= b {
        s.subrange(a, b)
    } else {
        Seq::empty()
    }
}

/// What a whole-string number literal parses to: an optional minus sign,
/// a whole part and up to two fraction digits, spanning the entire
/// string.
pub open spec fn parse_fx_spec(s: Seq<char>) -> Option<i64> {
    if s.len() > 0 && num_start(s, 0) && num_end(s, 0) == s.len() {
        Some(num_val(s, 0) as i64)
    } else {
        None
    }
}

/// The index of the first comma at or after `i`, or the length.
pub open spec fn first_comma(s: Seq<char>, i: int) -> int
    decreases s.len() - i,
{
    if i < 0 || i >= s.len() {
        s.len() as int
    } else if s[i] == ',' {
        i
    } else {
        first_comma(s, i + 1)
    }
}

/// The comma-separated pieces of the string from `i` on.
pub open spec fn split_from(s: Seq<char>, i: int) -> Seq<Seq<char>>
    decreases s.len() - i,
{
    let c = first_comma(s, i);
    if c < s.len() {
        let nxt = if c + 1 > i + 1 {
            c + 1
        } else {
            i + 1
        };
        seq![s.subrange(i, c)] + split_from(s, nxt)
    } else {
        seq![s.subrange(i, s.len() as int)]
    }
}


/// Whether the string holds the character anywhere.
pub open spec fn has_char(s: Seq<char>, c: char) -> bool {
    exists|k: int| 0 <= k < s.len() && s[k] == c
}

/// What one parameter resolves to: a number literal, or a variable
/// holding a number; anything else is a typed failure.
pub open spec fn resolve_spec(part: Seq<char>, vars: Map<Seq<char>, StoredVariable>) -> Result<
    i64,
    EvalError,
> {
    let t = trim_view(part);
    if parse_fx_spec(t) is Some {
        Ok(parse_fx_spec(t)->0)
    } else if vars.contains_key(t) {
        match vars[t].value {
            VariableValue::Number(n) => Ok(n),
            _ => Err(EvalError::NotNumeric),
        }
    } else if has_char(t, '(') {
        Err(EvalError::UnsupportedCall)
    } else {
        Err(EvalError::UnresolvedParameter)
    }
}

/// A resolved operand checked into the representable range.
pub open spec fn resolve_val_spec(part: Seq<char>, vars: Map<Seq<char>, StoredVariable>)
    -> Result<i64, EvalError> {
    match resolve_spec(part, vars) {
        Ok(v) => if fits_val(v as int) {
            Ok(v)
        } else {
            Err(EvalError::OutOfRange)
        },
        Err(e) => Err(e),
    }
}

/// The index of the first occurrence of a three-character pattern, or -1.
pub open spec fn first_pat(s: Seq<char>, c1: char, c2: char, c3: char, i: int) -> int
    decreases s.len() - i,
{
    if i < 0 || i + 3 > s.len() {
        -1
    } else if s[i] == c1 && s[i + 1] == c2 && s[i + 2] == c3 {
        i
    } else {
        first_pat(s, c1, c2, c3, i + 1)
    }
}

/// The value of one binary operation between two resolved operands.
pub open spec fn binop_spec(op: char, a: i64, b: i64) -> Result<i64, EvalError> {
    if op == '+' {
        if fits_val(a + b) {
            Ok((a + b) as i64)
        } else {
            Err(EvalError::OutOfRange)
        }
    } else if op == '-' {
        if fits_val(a - b) {
            Ok((a - b) as i64)
        } else {
            Err(EvalError::OutOfRange)
        }
    } else if op == '*' {
        if fits_val(fx_mul(a as int, b as int)) {
            Ok(fx_mul(a as int, b as int) as i64)
        } else {
            Err(EvalError::OutOfRange)
        }
    } else {
        if b == 0 {
            Err(EvalError::DivisionByZero)
        } else if fits_val(fx_div(a as int, b as int)) {
            Ok(fx_div(a as int, b as int) as i64)
        } else {
            Err(EvalError::OutOfRange)
        }
    }
}

/// The binary branch: the first of `+ - * /` found (each framed in
/// blanks) splits the expression in two operands.
pub open spec fn binary_spec(s: Seq<char>, vars: Map<Seq<char>, StoredVariable>) -> Result<
    i64,
    EvalError,
> {
    let pp = first_pat(s, ' ', '+', ' ', 0);
    let pm = first_pat(s, ' ', '-', ' ', 0);
    let pt = first_pat(s, ' ', '*', ' ', 0);
    let pd = first_pat(s, ' ', '/', ' ', 0);
    if pp >= 0 {
        binary_at(s, vars, pp, '+')
    } else if pm >= 0 {
        binary_at(s, vars, pm, '-')
    } else if pt >= 0 {
        binary_at(s, vars, pt, '*')
    } else if pd >= 0 {
        binary_at(s, vars, pd, '/')
    } else {
        resolve_val_spec(s, vars)
    }
}

/// One binary operation split at a found operator position.
pub open spec fn binary_at(
    s: Seq<char>,
    vars: Map<Seq<char>, StoredVariable>,
    p: int,
    op: char,
) -> Result<i64, EvalError>
    recommends
        0 <= p,
        p + 3 <= s.len(),
{
    match resolve_val_spec(s.subrange(0, p), vars) {
        Ok(a) => match resolve_val_spec(s.subrange(p + 3, s.len() as int), vars) {
            Ok(b) => binop_spec(op, a, b),
            Err(e) => Err(e),
        },
        Err(e) => Err(e),
    }
}

/// The first parameter that fails to resolve, or -1.
pub open spec fn first_err_idx(
    parts: Seq<Seq<char>>,
    vars: Map<Seq<char>, StoredVariable>,
    i: int,
) -> int
    decreases parts.len() - i,
{
    if i < 0 || i >= parts.len() {
        -1
    } else if resolve_val_spec(parts[i], vars) is Err {
        i
    } else {
        first_err_idx(parts, vars, i + 1)
    }
}

/// The calc branch: every comma-separated parameter resolved (the first
/// failure propagating), two parameters summing, three summing in order.
pub open spec fn calc_spec(inner: Seq<char>, vars: Map<Seq<char>, StoredVariable>) -> Option<
    Result<i64, EvalError>,
> {
    let parts = split_from(inner, 0);
    let fe = first_err_idx(parts, vars, 0);
    if fe >= 0 {
        Some(Err(resolve_val_spec(parts[fe], vars)->Err_0))
    } else if parts.len() == 2 {
        Some(binop_spec('+', resolve_val_spec(parts[0], vars)->Ok_0,
            resolve_val_spec(parts[1], vars)->Ok_0))
    } else if parts.len() == 3 {
        let a = resolve_val_spec(parts[0], vars)->Ok_0;
        let b = resolve_val_spec(parts[1], vars)->Ok_0;
        match binop_spec('+', a, b) {
            Ok(ab) => Some(binop_spec('+', ab, resolve_val_spec(parts[2], vars)->Ok_0)),
            Err(e) => Some(Err(e)),
        }
    } else {
        None
    }
}

/// What the whole entry point returns: the calc form first, then a plain
/// number, then a plain numeric variable, then one binary operation.
pub open spec fn solve_expr_spec(s: Seq<char>, vars: Map<Seq<char>, StoredVariable>) -> Result<
    i64,
    EvalError,
> {
    if starts_with_chars(s, "calc("@) && ends_with_chars(s, ")"@) && s.len() >= 6
        && calc_spec(s.subrange(5, s.len() - 1), vars) is Some {
        calc_spec(s.subrange(5, s.len() - 1), vars)->0
    } else if parse_fx_spec(s) is Some {
        Ok(parse_fx_spec(s)->0)
    } else if vars.contains_key(s) && vars[s].value is Number {
        Ok(vars[s].value->Number_0)
    } else {
        binary_spec(s, vars)
    }
}

/// Parses a whole-string number literal.
pub fn parse_fx(s: &str) -> (r: Option<i64>)
    ensures
        r == parse_fx_spec(s@),
{
    let len = s.unicode_len();
    if len == 0 {
        return None;
    }
    let c = s.get_char(0);
    let neg = c == '-';
    let starts = (48 <= c as u32 && c as u32 <= 57) || (neg && 1 < len && {
        let c1 = s.get_char(1);
        48 <= c1 as u32 && c1 as u32 <= 57
    });
    if !starts {
        return None;
    }
    let a = if neg {
        1
    } else {
        0
    };
    let b = digits_end_x(s, a);
    let ip = digits_val_clamped(s, a, b);
    let mut f1: i64 = 0;
    let mut f2: i64 = 0;
    let mut end = b;
    if b < len && s.get_char(b) == '.' {
        let fe = digits_end_x(s, b + 1);
        if fe - (b + 1) >= 1 {
            proof {
                assert(is_digit(s@[b + 1]));
            }
            f1 = (s.get_char(b + 1) as u32) as i64 - 48;
        }
        if fe - (b + 1) >= 2 {
            proof {
                assert(is_digit(s@[b + 2]));
            }
            f2 = (s.get_char(b + 2) as u32) as i64 - 48;
        }
        end = fe;
    }
    if end != len {
        return None;
    }
    let mag128: i128 = (ip as i128) * 100 + (f1 as i128) * 10 + (f2 as i128);
    let mag: i64 = if mag128 > 1_000_000_000_000_000 {
        1_000_000_000_000_000
    } else {
        mag128 as i64
    };
    let v: i64 = if neg {
        -mag
    } else {
        mag
    };
    proof {
        let si = s@;
        assert(num_start(si, 0));
        assert(num_b(si, 0) == b as int);
        assert(num_end(si, 0) == end as int);
        let dv = crate::memory::compact_solution::digits_val(si, a as int, b as int);
        if dv > 1_000_000_000_000_000 {
            assert(dv * 100 >= dv) by (nonlinear_arith)
                requires
                    dv > 0,
            ;
        }
        assert(v as int == num_val(si, 0));
    }
    Some(v)
}

/// An empty variable store.
pub fn new_variable_store() -> (r: StringHashMap<StoredVariable>)
    ensures
        r@ == Map::<Seq<char>, StoredVariable>::empty(),
{
    StringHashMap::new()
}

/// Stores a numeric variable under its name.
pub fn store_number_variable(
    vars: &mut StringHashMap<StoredVariable>,
    name: &str,
    value: i64,
    now_ms: u64,
)
    ensures
        final(vars)@.contains_key(name@),
        final(vars)@[name@].value == VariableValue::Number(value),
        forall|k: Seq<char>|
            k != name@ ==> (final(vars)@.contains_key(k) == old(vars)@.contains_key(k) && (old(
                vars,
            )@.contains_key(k) ==> final(vars)@[k] == old(vars)@[k])),
{
    let var = StoredVariable {
        name: name.to_owned(),
        value: VariableValue::Number(value),
        timestamp: now_ms,
        source_equation: None,
    };
    vars.insert(name.to_owned(), var);
}

/// Whether a character is blank space.
fn is_space_x(c: char) -> (r: bool)
    ensures
        r == is_space(c),
{
    c == ' ' || c == '\t'
}

/// Trims leading and trailing blanks.
pub fn trim_str(s: &str) -> (r: String)
    ensures
        r@ == trim_view(s@),
{
    let len = s.unicode_len();
    let mut a: usize = 0;
    while a < len && is_space_x(s.get_char(a))
        invariant
            a <= len,
            len == s@.len(),
            ws_from(s@, 0) == ws_from(s@, a as int),
        decreases len - a,
    {
        a = a + 1;
    }
    let mut b: usize = len;
    while b > a && is_space_x(s.get_char(b - 1))
        invariant
            a <= b <= len,
            len == s@.len(),
            a == ws_from(s@, 0),
            ws_until(s@, len as int) == ws_until(s@, b as int),
        decreases b,
    {
        b = b - 1;
    }
    let piece = s.substring_char(a, b);
    let r = piece.to_owned();
    proof {
        if b > a {
            assert(ws_until(s@, b as int) == b);
            assert(r@ =~= trim_view(s@));
        } else {
            lemma_ws_until_le(s@, a as int);
            assert(r@ =~= Seq::<char>::empty());
            if ws_until(s@, a as int) == a {
                assert(trim_view(s@) =~= Seq::<char>::empty());
            } else {
                assert(trim_view(s@) =~= Seq::<char>::empty());
            }
        }
    }
    r
}

/// The blank-trim bound never moves right.
proof fn lemma_ws_until_le(s: Seq<char>, j: int)
    ensures
        ws_until(s, j) <= j,
    decreases j,
{
    if 0 < j <= s.len() && is_space(s[j - 1]) {
        lemma_ws_until_le(s, j - 1);
    }
}

/// Resolves one parameter: a number literal or a numeric variable, range
/// checked.
pub fn resolve_value(part: &str, vars: &StringHashMap<StoredVariable>) -> (r: Result<
    i64,
    EvalError,
>)
    ensures
        r == resolve_val_spec(part@, vars@),
{
    let t = trim_str(part);
    let resolved: Result<i64, EvalError> = if let Some(v) = parse_fx(t.as_str()) {
        Ok(v)
    } else {
        match vars.get(t.as_str()) {
            Some(sv) => match &sv.value {
                VariableValue::Number(n) => Ok(*n),
                _ => Err(EvalError::NotNumeric),
            },
            None => {
                if contains_char(t.as_str(), '(') {
                    Err(EvalError::UnsupportedCall)
                } else {
                    Err(EvalError::UnresolvedParameter)
                }
            },
        }
    };
    match resolved {
        Ok(v) => {
            if -1_000_000_000_000_000 <= v && v <= 1_000_000_000_000_000 {
                Ok(v)
            } else {
                Err(EvalError::OutOfRange)
            }
        },
        Err(e) => Err(e),
    }
}

/// Whether the string holds the character anywhere.
fn contains_char(s: &str, c: char) -> (r: bool)
    ensures
        r == has_char(s@, c),
{
    let len = s.unicode_len();
    let mut i: usize = 0;
    while i < len
        invariant
            i <= len,
            len == s@.len(),
            forall|k: int| 0 <= k < i ==> s@[k] != c,
        decreases len - i,
    {
        if s.get_char(i) == c {
            return true;
        }
        i = i + 1;
    }
    false
}

/// The index of the first comma at or after `from`, or the length.
fn first_comma_x(s: &str, from: usize) -> (r: usize)
    requires
        from <= s@.len(),
    ensures
        r == first_comma(s@, from as int),
        from <= r <= s@.len(),
{
    let len = s.unicode_len();
    let mut i = from;
    while i < len && s.get_char(i) != ','
        invariant
            from <= i <= len,
            len == s@.len(),
            first_comma(s@, from as int) == first_comma(s@, i as int),
        decreases len - i,
    {
        i = i + 1;
    }
    i
}

/// Splits the string into its comma-separated pieces from `from` on.
fn split_commas(s: &str, from: usize) -> (r: Vec<String>)
    requires
        from <= s@.len(),
    ensures
        r@.len() == split_from(s@, from as int).len(),
        forall|k: int|
            0 <= k < r@.len() ==> (#[trigger] r@[k])@ == split_from(s@, from as int)[k],
    decreases s@.len() - from,
{
    let len = s.unicode_len();
    let c = first_comma_x(s, from);
    let piece = s.substring_char(from, c).to_owned();
    if c < len {
        let rest = split_commas(s, c + 1);
        let mut out: Vec<String> = Vec::new();
        out.push(piece);
        let mut i: usize = 0;
        while i < rest.len()
            invariant
                i <= rest@.len(),
                out@.len() == i + 1,
                out@[0]@ == s@.subrange(from as int, first_comma(s@, from as int)),
                rest@.len() == split_from(s@, first_comma(s@, from as int) + 1).len(),
                forall|k: int|
                    0 <= k < rest@.len() ==> (#[trigger] rest@[k])@ == split_from(
                        s@,
                        first_comma(s@, from as int) + 1,
                    )[k],
                forall|k: int| 0 <= k < i ==> (#[trigger] out@[k + 1])@ == rest@[k]@,
            decreases rest@.len() - i,
        {
            let copy = rest[i].clone();
            out.push(copy);
            i = i + 1;
        }
        proof {
            let ci = first_comma(s@, from as int);
            assert(split_from(s@, from as int) == seq![s@.subrange(from as int, ci)]
                + split_from(s@, ci + 1));
            assert forall|k: int| 0 <= k < out@.len() implies (#[trigger] out@[k])@
                == split_from(s@, from as int)[k] by {
                if k == 0 {
                    assert(split_from(s@, from as int)[0] == s@.subrange(from as int, ci));
                } else {
                    assert(out@[(k - 1) + 1]@ == rest@[k - 1]@);
                    assert(split_from(s@, from as int)[k] == split_from(s@, ci + 1)[k - 1]);
                }
            }
        }
        out
    } else {
        let mut out: Vec<String> = Vec::new();
        out.push(piece);
        proof {
            assert(split_from(s@, from as int) == seq![s@.subrange(from as int, s@.len() as int)]);
            assert(out@[0]@ == split_from(s@, from as int)[0]);
        }
        out
    }
}

/// The index of the first occurrence of a three-character pattern, or
/// nothing.
fn find_pat(s: &str, c1: char, c2: char, c3: char) -> (r: Option<usize>)
    ensures
        match r {
            Some(p) => first_pat(s@, c1, c2, c3, 0) == p && p + 3 <= s@.len(),
            None => first_pat(s@, c1, c2, c3, 0) == -1,
        },
{
    let len = s.unicode_len();
    if len < 3 {
        return None;
    }
    let mut i: usize = 0;
    while i <= len - 3
        invariant
            3 <= len,
            i <= len - 2,
            len == s@.len(),
            first_pat(s@, c1, c2, c3, 0) == first_pat(s@, c1, c2, c3, i as int),
        decreases len - i,
    {
        if s.get_char(i) == c1 && s.get_char(i + 1) == c2 && s.get_char(i + 2) == c3 {
            return Some(i);
        }
        i = i + 1;
    }
    None
}

/// Applies one binary operation to resolved, representable operands.
fn apply_binop(op: char, a: i64, b: i64) -> (r: Result<i64, EvalError>)
    requires
        fits_val(a as int),
        fits_val(b as int),
        op == '+' || op == '-' || op == '*' || op == '/',
    ensures
        r == binop_spec(op, a, b),
{
    if op == '+' {
        match add_fx(a, b) {
            Some(v) => Ok(v),
            None => Err(EvalError::OutOfRange),
        }
    } else if op == '-' {
        match sub_fx(a, b) {
            Some(v) => Ok(v),
            None => Err(EvalError::OutOfRange),
        }
    } else if op == '*' {
        match mul_fx(a, b) {
            Some(v) => Ok(v),
            None => Err(EvalError::OutOfRange),
        }
    } else {
        if b == 0 {
            Err(EvalError::DivisionByZero)
        } else {
            match div_fx(a, b) {
                Some(v) => Ok(v),
                None => Err(EvalError::OutOfRange),
            }
        }
    }
}

/// One binary operation split at a found operator position.
fn eval_binary_at(s: &str, vars: &StringHashMap<StoredVariable>, p: usize, op: char) -> (r:
    Result<i64, EvalError>)
    requires
        p + 3 <= s@.len(),
        op == '+' || op == '-' || op == '*' || op == '/',
    ensures
        r == binary_at(s@, vars@, p as int, op),
{
    let len = s.unicode_len();
    let left = s.substring_char(0, p).to_owned();
    let right = s.substring_char(p + 3, len).to_owned();
    match resolve_value(left.as_str(), vars) {
        Ok(a) => match resolve_value(right.as_str(), vars) {
            Ok(b) => apply_binop(op, a, b),
            Err(e) => Err(e),
        },
        Err(e) => Err(e),
    }
}

/// Evaluates an inline expression against the variable store.
pub fn eval_expression(expression: &str, vars: &StringHashMap<StoredVariable>) -> (r: Result<
    i64,
    EvalError,
>)
    ensures
        r == solve_expr_spec(expression@, vars@),
{
    let len = expression.unicode_len();
    if str_starts_with(expression, "calc(") && str_ends_with(expression, ")") && len >= 6 {
        let inner = expression.substring_char(5, len - 1).to_owned();
        let parts = split_commas(inner.as_str(), 0);
        let ghost inner_v = expression@.subrange(5, expression@.len() - 1);
        let ghost spec_parts = split_from(inner_v, 0);
        let mut vals: Vec<i64> = Vec::new();
        let mut i: usize = 0;
        while i < parts.len()
            invariant
                i <= parts@.len(),
                parts@.len() == spec_parts.len(),
                forall|k: int| 0 <= k < parts@.len() ==> (#[trigger] parts@[k])@ == spec_parts[k],
                starts_with_chars(expression@, "calc("@),
                ends_with_chars(expression@, ")"@),
                expression@.len() >= 6,
                inner_v == expression@.subrange(5, expression@.len() - 1),
                spec_parts == split_from(inner_v, 0),
                vals@.len() == i,
                first_err_idx(spec_parts, vars@, 0) == first_err_idx(
                    spec_parts,
                    vars@,
                    i as int,
                ),
                forall|k: int|
                    0 <= k < i ==> resolve_val_spec(#[trigger] spec_parts[k], vars@) == Ok::<
                        i64,
                        EvalError,
                    >(vals@[k]),
                forall|k: int| 0 <= k < i ==> fits_val((#[trigger] vals@[k]) as int),
            decreases parts@.len() - i,
        {
            match resolve_value(&parts[i], vars) {
                Ok(v) => {
                    proof {
                        assert(first_err_idx(spec_parts, vars@, i as int) == first_err_idx(
                            spec_parts,
                            vars@,
                            i + 1,
                        ));
                    }
                    vals.push(v);
                    i = i + 1;
                },
                Err(e) => {
                    proof {
                        assert(first_err_idx(spec_parts, vars@, i as int) == i);
                        assert(calc_spec(inner_v, vars@) == Some(Err::<i64, EvalError>(e)));
                    }
                    return Err(e);
                },
            }
        }
        proof {
            assert(first_err_idx(spec_parts, vars@, i as int) == -1);
            assert(first_err_idx(spec_parts, vars@, 0) == -1);
        }
        if vals.len() == 2 {
            return apply_binop('+', vals[0], vals[1]);
        }
        if vals.len() == 3 {
            match apply_binop('+', vals[0], vals[1]) {
                Ok(ab) => {
                    return apply_binop('+', ab, vals[2]);
                },
                Err(e) => {
                    return Err(e);
                },
            }
        }
        proof {
            assert(calc_spec(inner_v, vars@) is None);
        }
    }
    if let Some(v) = parse_fx(expression) {
        return Ok(v);
    }
    match vars.get(expression) {
        Some(sv) => match &sv.value {
            VariableValue::Number(n) => {
                return Ok(*n);
            },
            _ => {},
        },
        None => {},
    }
    if let Some(p) = find_pat(expression, ' ', '+', ' ') {
        return eval_binary_at(expression, vars, p, '+');
    }
    if let Some(p) = find_pat(expression, ' ', '-', ' ') {
        return eval_binary_at(expression, vars, p, '-');
    }
    if let Some(p) = find_pat(expression, ' ', '*', ' ') {
        return eval_binary_at(expression, vars, p, '*');
    }
    if let Some(p) = find_pat(expression, ' ', '/', ' ') {
        return eval_binary_at(expression, vars, p, '/');
    }
    resolve_value(expression, vars)
}

} // verus!
