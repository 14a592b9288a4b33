//! The compact binary representation of a solution: the result truncated
//! to 32 bits, the arithmetic shape encoded into a small code table by
//! its operator counts, and up to three operands interned in a shared
//! pool. The encoding is lossy and best-effort by design: shapes with the
//! same operator counts share a code, and reconstruction assumes a
//! perfect accuracy.

use vstd::prelude::*;
use crate::fixed::VAL_LIMIT;
use crate::types::{MathSolution, ACC_PERFECT};
use crate::text::{fx_chars, fx_to_string, push_char};

verus! {

/// A fixed-size record standing for one cached solution.
#[derive(Clone, Copy, Debug)]
pub struct CompactSolution {
    /// The result value, truncated to 32 bits (hundredth units).
    pub result: i32,
    /// Which shape of the code table the equation matched.
    pub operation_code: u8,
    /// Indices into the operand pool; unused slots hold 0.
    pub operands: [u16; 3],
    /// Seconds since the store's start time, saturated.
    pub timestamp_delta: u16,
}

// ---------------------------------------------------------------------
// Number scanning: the operands of an equation string.
// ---------------------------------------------------------------------

/// Whether a character is a decimal digit.
pub open spec fn is_digit(c: char) -> bool {
    48 <= c as int <= 57
}

/// The value of a digit character.
pub open spec fn digit_val(c: char) -> int {
    c as int - 48
}

/// The first index at or after `i` that does not hold a digit.
pub open spec fn digits_end(s: Seq<char>, i: int) -> int
    decreases s.len() - i,
{
    if 0 <= i < s.len() && is_digit(s[i]) {
        digits_end(s, i + 1)
    } else {
        i
    }
}

/// The value of the digit run `s[i..j)`.
pub open spec fn digits_val(s: Seq<char>, i: int, j: int) -> int
    decreases j - i,
{
    if i >= j {
        0
    } else {
        digits_val(s, i, j - 1) * 10 + digit_val(s[j - 1])
    }
}

/// Whether a number starts at index `i`: a digit, or a minus sign
/// directly followed by one.
pub open spec fn num_start(s: Seq<char>, i: int) -> bool {
    is_digit(s[i]) || (s[i] == '-' && i + 1 < s.len() && is_digit(s[i + 1]))
}

/// Where the digits of the number starting at `i` begin.
pub open spec fn num_a(s: Seq<char>, i: int) -> int {
    if s[i] == '-' {
        i + 1
    } else {
        i
    }
}

/// Where the whole part of the number starting at `i` ends.
pub open spec fn num_b(s: Seq<char>, i: int) -> int {
    digits_end(s, num_a(s, i))
}

/// Where the number starting at `i` ends (a dot and fraction digits
/// included).
pub open spec fn num_end(s: Seq<char>, i: int) -> int {
    let b = num_b(s, i);
    if b < s.len() && s[b] == '.' {
        digits_end(s, b + 1)
    } else {
        b
    }
}

/// The value of the number starting at `i`, in hundredth units: the whole
/// part and the first two fraction digits, the magnitude clamped into the
/// representable range.
pub open spec fn num_val(s: Seq<char>, i: int) -> int {
    let a = num_a(s, i);
    let b = num_b(s, i);
    let f1 = if b < s.len() && s[b] == '.' && digits_end(s, b + 1) > b + 1 {
        digit_val(s[b + 1])
    } else {
        0
    };
    let f2 = if b < s.len() && s[b] == '.' && digits_end(s, b + 1) > b + 2 {
        digit_val(s[b + 2])
    } else {
        0
    };
    let mag = vstd::math::min(digits_val(s, a, b) * 100 + f1 * 10 + f2, VAL_LIMIT as int);
    if s[i] == '-' {
        -mag
    } else {
        mag
    }
}

/// The larger of two indices.
pub open spec fn max_i(a: int, b: int) -> int {
    if a >= b {
        a
    } else {
        b
    }
}

/// The smaller of two indices.
pub open spec fn min_i(a: int, b: int) -> int {
    if a <= b {
        a
    } else {
        b
    }
}

/// Where the scan resumes after the number starting at `i`.
pub open spec fn scan_next(s: Seq<char>, i: int) -> int {
    min_i(max_i(num_end(s, i), i + 1), s.len() as int)
}

/// All numbers of the string from index `i` on, in hundredth units.
pub open spec fn scan_from(s: Seq<char>, i: int) -> Seq<i64>
    decreases s.len() - i,
{
    if i < 0 || i >= s.len() {
        Seq::empty()
    } else if num_start(s, i) {
        seq![num_val(s, i) as i64] + scan_from(s, scan_next(s, i))
    } else {
        scan_from(s, i + 1)
    }
}

/// The operand values an equation string mentions.
pub open spec fn extracted_nums(s: Seq<char>) -> Seq<i64> {
    scan_from(s, 0)
}

/// Whether every character of `s[i..j)` is a digit.
pub open spec fn all_digits(s: Seq<char>, i: int, j: int) -> bool {
    forall|k: int| i <= k < j ==> is_digit(#[trigger] s[k])
}

/// Whether a character is a decimal digit.
fn is_digit_x(c: char) -> (r: bool)
    ensures
        r == is_digit(c),
{
    let u = c as u32;
    48 <= u && u <= 57
}

/// The first index at or after `from` without a digit.
pub fn digits_end_x(s: &str, from: usize) -> (r: usize)
    requires
        from <= s@.len(),
    ensures
        r == digits_end(s@, from as int),
        from <= r <= s@.len(),
        all_digits(s@, from as int, r as int),
{
    let len = s.unicode_len();
    let mut i = from;
    while i < len && is_digit_x(s.get_char(i))
        invariant
            from <= i <= len,
            len == s@.len(),
            digits_end(s@, from as int) == digits_end(s@, i as int),
            all_digits(s@, from as int, i as int),
        decreases len - i,
    {
        i = i + 1;
    }
    i
}

/// The value of a digit run, clamped into the representable range.
pub fn digits_val_clamped(s: &str, from: usize, to: usize) -> (r: i64)
    requires
        from <= to <= s@.len(),
        all_digits(s@, from as int, to as int),
    ensures
        r == vstd::math::min(digits_val(s@, from as int, to as int), VAL_LIMIT as int),
        0 <= r <= VAL_LIMIT,
{
    let mut acc: i64 = 0;
    let mut sat: bool = false;
    let mut k = from;
    while k < to
        invariant
            from <= k <= to <= s@.len(),
            all_digits(s@, from as int, to as int),
            !sat ==> acc == digits_val(s@, from as int, k as int) && 0 <= acc <= VAL_LIMIT,
            sat ==> digits_val(s@, from as int, k as int) > VAL_LIMIT,
        decreases to - k,
    {
        let c = s.get_char(k);
        let d: i64 = (c as u32) as i64 - 48;
        proof {
            assert(is_digit(s@[k as int]));
            assert(0 <= d <= 9);
        }
        if sat {
            proof {
                assert(digits_val(s@, from as int, k + 1) == digits_val(
                    s@,
                    from as int,
                    k as int,
                ) * 10 + d);
                assert(digits_val(s@, from as int, k as int) * 10 >= digits_val(
                    s@,
                    from as int,
                    k as int,
                )) by (nonlinear_arith)
                    requires
                        digits_val(s@, from as int, k as int) > 0,
                ;
            }
        } else {
            if acc > (VAL_LIMIT - d) / 10 {
                proof {
                    assert(acc * 10 + d > VAL_LIMIT) by (nonlinear_arith)
                        requires
                            acc > ((VAL_LIMIT as int) - d) / 10,
                            0 <= d <= 9,
                            acc >= 0,
                    ;
                }
                sat = true;
            } else {
                proof {
                    assert(acc * 10 + d <= VAL_LIMIT) by (nonlinear_arith)
                        requires
                            acc <= ((VAL_LIMIT as int) - d) / 10,
                            0 <= d <= 9,
                            acc >= 0,
                    ;
                }
                acc = acc * 10 + d;
            }
        }
        k = k + 1;
    }
    if sat {
        VAL_LIMIT
    } else {
        acc
    }
}

/// Scans an equation string for the numbers it mentions, in hundredth
/// units: an optional minus sign, a whole part, and up to two fraction
/// digits are honored; a magnitude beyond the representable range is
/// clamped.
pub fn extract_numbers_from_equation(equation: &str) -> (r: Vec<i64>)
    ensures
        r@ == extracted_nums(equation@),
{
    let len = equation.unicode_len();
    let mut out: Vec<i64> = Vec::new();
    let mut i: usize = 0;
    proof {
        assert(out@ + scan_from(equation@, 0) =~= scan_from(equation@, 0));
    }
    while i < len
        invariant
            i <= len,
            len == equation@.len(),
            scan_from(equation@, 0) == out@ + scan_from(equation@, i as int),
        decreases len - i,
    {
        let ghost pre = out@;
        let c = equation.get_char(i);
        let neg = c == '-';
        let starts = is_digit_x(c) || (neg && i + 1 < len && is_digit_x(equation.get_char(i + 1)));
        if starts {
            let a = if neg {
                i + 1
            } else {
                i
            };
            let b = digits_end_x(equation, a);
            let ip = digits_val_clamped(equation, a, b);
            let mut f1: i64 = 0;
            let mut f2: i64 = 0;
            let mut end = b;
            if b < len && equation.get_char(b) == '.' {
                let fe = digits_end_x(equation, b + 1);
                if fe - (b + 1) >= 1 {
                    proof {
                        assert(is_digit(equation@[b + 1]));
                    }
                    f1 = (equation.get_char(b + 1) as u32) as i64 - 48;
                }
                if fe - (b + 1) >= 2 {
                    proof {
                        assert(is_digit(equation@[b + 2]));
                    }
                    f2 = (equation.get_char(b + 2) as u32) as i64 - 48;
                }
                end = fe;
            }
            let mag128: i128 = (ip as i128) * 100 + (f1 as i128) * 10 + (f2 as i128);
            let mag: i64 = if mag128 > VAL_LIMIT as i128 {
                VAL_LIMIT
            } else {
                mag128 as i64
            };
            let v: i64 = if neg {
                -mag
            } else {
                mag
            };
            proof {
                let si = equation@;
                let ii = i as int;
                assert(num_start(si, ii));
                assert(num_a(si, ii) == a as int);
                assert(num_b(si, ii) == b as int);
                assert(num_end(si, ii) == end as int);
                let dv = digits_val(si, a as int, b as int);
                assert(ip == vstd::math::min(dv, VAL_LIMIT as int));
                if dv > VAL_LIMIT as int {
                    assert(dv * 100 >= dv) by (nonlinear_arith)
                        requires
                            dv > 0,
                    ;
                    assert(mag == VAL_LIMIT);
                    assert(num_val(si, ii) == if si[ii] == '-' {
                        -(VAL_LIMIT as int)
                    } else {
                        VAL_LIMIT as int
                    });
                }
                assert(v as int == num_val(si, ii));
                assert(scan_from(si, ii) == seq![num_val(si, ii) as i64] + scan_from(
                    si,
                    scan_next(si, ii),
                ));
            }
            out.push(v);
            let next = if end > i {
                end
            } else {
                i + 1
            };
            proof {
                assert(next as int == scan_next(equation@, i as int));
                assert(out@ =~= pre + seq![num_val(equation@, i as int) as i64]);
                sq_assoc(
                    pre,
                    seq![num_val(equation@, i as int) as i64],
                    scan_from(equation@, next as int),
                );
            }
            i = next;
        } else {
            proof {
                assert(scan_from(equation@, i as int) == scan_from(equation@, i + 1));
            }
            i = i + 1;
        }
    }
    proof {
        assert(out@ + scan_from(equation@, len as int) =~= out@);
    }
    out
}

/// Concatenation of value sequences is associative.
proof fn sq_assoc(a: Seq<i64>, b: Seq<i64>, c: Seq<i64>)
    ensures
        (a + b) + c == a + (b + c),
{
    assert((a + b) + c =~= a + (b + c));
}

// ---------------------------------------------------------------------
// The operation-code table.
// ---------------------------------------------------------------------

/// How often a character occurs in a string.
pub open spec fn count_char(s: Seq<char>, c: char) -> int
    decreases s.len(),
{
    if s.len() == 0 {
        0
    } else {
        count_char(s.drop_last(), c) + if s.last() == c {
            1int
        } else {
            0int
        }
    }
}

/// The operation code an equation's operator counts match; ambiguous
/// shapes share a code, and an unknown signature falls back to plain
/// addition.
pub open spec fn op_code_of(s: Seq<char>) -> u8 {
    let p = count_char(s, '+');
    let m = count_char(s, '-');
    let t = count_char(s, '*');
    let d = count_char(s, '/');
    let w = count_char(s, '^');
    let l = count_char(s, '(');
    if p == 1 && m == 0 && t == 0 && d == 0 && w == 0 && l == 0 {
        0
    } else if p == 0 && m == 1 && t == 0 && d == 0 && w == 0 && l == 0 {
        1
    } else if p == 0 && m == 0 && t == 1 && d == 0 && w == 0 && l == 0 {
        2
    } else if p == 0 && m == 0 && t == 0 && d == 1 && w == 0 && l == 0 {
        3
    } else if p == 0 && m == 0 && t == 0 && d == 0 && w == 1 && l == 0 {
        4
    } else if p == 2 && m == 0 && t == 0 && d == 0 && w == 0 && l == 0 {
        5
    } else if p == 0 && m == 0 && t == 2 && d == 0 && w == 0 && l == 0 {
        6
    } else if p == 1 && m == 0 && t == 1 && d == 0 && w == 0 && l == 1 {
        7
    } else if p == 0 && m == 1 && t == 1 && d == 0 && w == 0 && l == 1 {
        8
    } else if p == 1 && m == 0 && t == 1 && d == 0 && w == 0 && l == 0 {
        15
    } else if p == 0 && m == 1 && t == 1 && d == 0 && w == 0 && l == 0 {
        16
    } else if p == 1 && m == 0 && t == 0 && d == 1 && w == 0 && l == 0 {
        17
    } else if p == 0 && m == 1 && t == 0 && d == 1 && w == 0 && l == 0 {
        18
    } else {
        0
    }
}

/// Counts one character in a string.
fn count_char_x(s: &str, c: char) -> (r: u64)
    ensures
        r == count_char(s@, c),
{
    let len = s.unicode_len();
    let mut n: u64 = 0;
    let mut i: usize = 0;
    while i < len
        invariant
            i <= len,
            len == s@.len(),
            n == count_char(s@.take(i as int), c),
            n <= i,
        decreases len - i,
    {
        proof {
            assert(s@.take(i + 1).drop_last() =~= s@.take(i as int));
            assert(s@.take(i + 1).last() == s@[i as int]);
        }
        if s.get_char(i) == c {
            n = n + 1;
        }
        i = i + 1;
    }
    proof {
        assert(s@.take(s@.len() as int) =~= s@);
    }
    n
}

/// Infers the operation code of an equation from its operator counts.
pub fn parse_operation_code(equation: &str) -> (r: u8)
    ensures
        r == op_code_of(equation@),
{
    let p = count_char_x(equation, '+');
    let m = count_char_x(equation, '-');
    let t = count_char_x(equation, '*');
    let d = count_char_x(equation, '/');
    let w = count_char_x(equation, '^');
    let l = count_char_x(equation, '(');
    if p == 1 && m == 0 && t == 0 && d == 0 && w == 0 && l == 0 {
        0
    } else if p == 0 && m == 1 && t == 0 && d == 0 && w == 0 && l == 0 {
        1
    } else if p == 0 && m == 0 && t == 1 && d == 0 && w == 0 && l == 0 {
        2
    } else if p == 0 && m == 0 && t == 0 && d == 1 && w == 0 && l == 0 {
        3
    } else if p == 0 && m == 0 && t == 0 && d == 0 && w == 1 && l == 0 {
        4
    } else if p == 2 && m == 0 && t == 0 && d == 0 && w == 0 && l == 0 {
        5
    } else if p == 0 && m == 0 && t == 2 && d == 0 && w == 0 && l == 0 {
        6
    } else if p == 1 && m == 0 && t == 1 && d == 0 && w == 0 && l == 1 {
        7
    } else if p == 0 && m == 1 && t == 1 && d == 0 && w == 0 && l == 1 {
        8
    } else if p == 1 && m == 0 && t == 1 && d == 0 && w == 0 && l == 0 {
        15
    } else if p == 0 && m == 1 && t == 1 && d == 0 && w == 0 && l == 0 {
        16
    } else if p == 1 && m == 0 && t == 0 && d == 1 && w == 0 && l == 0 {
        17
    } else if p == 0 && m == 1 && t == 0 && d == 1 && w == 0 && l == 0 {
        18
    } else {
        0
    }
}

/// The equation template of an operation code.
pub open spec fn op_pattern_chars(code: u8) -> Seq<char> {
    if code == 0 {
        "a + b"@
    } else if code == 1 {
        "a - b"@
    } else if code == 2 {
        "a * b"@
    } else if code == 3 {
        "a / b"@
    } else if code == 4 {
        "a ^ b"@
    } else if code == 5 {
        "a + b + c"@
    } else if code == 6 {
        "a * b * c"@
    } else if code == 7 {
        "(a + b) * c"@
    } else if code == 8 {
        "(a - b) * c"@
    } else if code == 9 {
        "a * (b + c)"@
    } else if code == 10 {
        "a * (b - c)"@
    } else if code == 11 {
        "(a + b) / c"@
    } else if code == 12 {
        "a ^ b + c"@
    } else if code == 13 {
        "a ^ b - c"@
    } else if code == 14 {
        "(a + b) ^ c"@
    } else if code == 15 {
        "a * b + c"@
    } else if code == 16 {
        "a * b - c"@
    } else if code == 17 {
        "a / b + c"@
    } else if code == 18 {
        "a / b - c"@
    } else if code == 19 {
        "a + b * c"@
    } else if code == 20 {
        "a - b * c"@
    } else if code == 21 {
        "a + b / c"@
    } else if code == 22 {
        "a - b / c"@
    } else {
        "a + b"@
    }
}

/// The equation template of an operation code.
pub fn op_pattern(code: u8) -> (r: &'static str)
    ensures
        r@ == op_pattern_chars(code),
{
    if code == 0 {
        "a + b"
    } else if code == 1 {
        "a - b"
    } else if code == 2 {
        "a * b"
    } else if code == 3 {
        "a / b"
    } else if code == 4 {
        "a ^ b"
    } else if code == 5 {
        "a + b + c"
    } else if code == 6 {
        "a * b * c"
    } else if code == 7 {
        "(a + b) * c"
    } else if code == 8 {
        "(a - b) * c"
    } else if code == 9 {
        "a * (b + c)"
    } else if code == 10 {
        "a * (b - c)"
    } else if code == 11 {
        "(a + b) / c"
    } else if code == 12 {
        "a ^ b + c"
    } else if code == 13 {
        "a ^ b - c"
    } else if code == 14 {
        "(a + b) ^ c"
    } else if code == 15 {
        "a * b + c"
    } else if code == 16 {
        "a * b - c"
    } else if code == 17 {
        "a / b + c"
    } else if code == 18 {
        "a / b - c"
    } else if code == 19 {
        "a + b * c"
    } else if code == 20 {
        "a - b * c"
    } else if code == 21 {
        "a + b / c"
    } else if code == 22 {
        "a - b / c"
    } else {
        "a + b"
    }
}

// ---------------------------------------------------------------------
// The operand pool.
// ---------------------------------------------------------------------

/// The first index of a value in a sequence, or -1.
pub open spec fn find_first(s: Seq<i64>, v: i64) -> int {
    find_first_from(s, v, 0)
}

/// A deduplicating store of the numeric operands referenced by compact
/// records.
pub struct OperandPool {
    operands: Vec<i64>,
}

impl OperandPool {
    /// The pooled values, in interning order.
    pub closed spec fn view(&self) -> Seq<i64> {
        self.operands@
    }

    pub fn new() -> (r: Self)
        ensures
            r@ == Seq::<i64>::empty(),
    {
        OperandPool { operands: Vec::new() }
    }

    /// Interns a value: an existing value keeps its first index, a new
    /// one is appended while the pool has room, and a full pool falls
    /// back to index 0.
    pub fn register(&mut self, value: i64) -> (r: u16)
        requires
            old(self)@.len() <= 0x10000,
        ensures
            final(self)@.len() <= 0x10000,
            ({
                let f = find_first(old(self)@, value);
                if f >= 0 {
                    final(self)@ == old(self)@ && r as int == f
                } else if old(self)@.len() < 0x10000 {
                    final(self)@ == old(self)@.push(value) && r as int == old(self)@.len()
                } else {
                    final(self)@ == old(self)@ && r == 0
                }
            }),
            (find_first(old(self)@, value) >= 0 || old(self)@.len() < 0x10000) ==> (r as int)
                < final(self)@.len() && final(self)@[r as int] == value,
    {
        let mut i: usize = 0;
        while i < self.operands.len()
            invariant
                i <= self.operands@.len(),
                self.operands@ == old(self)@,
                old(self)@.len() <= 0x10000,
                find_first(self.operands@, value) == find_first_from(
                    self.operands@,
                    value,
                    i as int,
                ),
            decreases self.operands@.len() - i,
        {
            if self.operands[i] == value {
                return i as u16;
            }
            i = i + 1;
        }
        if self.operands.len() < 0x10000 {
            let idx = self.operands.len() as u16;
            self.operands.push(value);
            idx
        } else {
            0
        }
    }

    /// The pooled value at an index.
    pub fn get(&self, index: u16) -> (r: Option<i64>)
        ensures
            match r {
                Some(v) => index < self@.len() && v == self@[index as int],
                None => index >= self@.len(),
            },
    {
        if (index as usize) < self.operands.len() {
            Some(self.operands[index as usize])
        } else {
            None
        }
    }

    /// The pooled value at an index, or zero.
    pub fn get_or_zero(&self, index: u16) -> (r: i64)
        ensures
            r == pool_val(self@, index as int),
    {
        match self.get(index) {
            Some(v) => v,
            None => 0,
        }
    }

    /// Interns the first three numbers an equation mentions.
    pub fn register_operands(&mut self, equation: &str) -> (r: [u16; 3])
        requires
            old(self)@.len() <= 0x10000,
        ensures
            final(self)@.len() <= 0x10000,
            final(self)@.len() >= old(self)@.len(),
            forall|k: int| 0 <= k < old(self)@.len() ==> final(self)@[k] == old(self)@[k],
            ({
                let nums = extracted_nums(equation@);
                old(self)@.len() + 3 <= 0x10000 ==> forall|k: int|
                    0 <= k < 3 && k < nums.len() ==> (#[trigger] r@[k]) < final(self)@.len()
                        && final(self)@[r@[k] as int] == nums[k]
            }),
            forall|k: int|
                0 <= k < 3 && k >= extracted_nums(equation@).len() ==> (#[trigger] r@[k]) == 0,
    {
        let nums = extract_numbers_from_equation(equation);
        let i0: u16 = if nums.len() > 0 {
            self.register(nums[0])
        } else {
            0
        };
        let i1: u16 = if nums.len() > 1 {
            self.register(nums[1])
        } else {
            0
        };
        let i2: u16 = if nums.len() > 2 {
            self.register(nums[2])
        } else {
            0
        };
        let out: [u16; 3] = [i0, i1, i2];
        proof {
            assert(out@[0] == i0 && out@[1] == i1 && out@[2] == i2);
        }
        out
    }

    /// Appends a value without interning; used when a pool is rebuilt
    /// from a decoded blob, whose duplicates must be kept as they are.
    pub fn push_raw(&mut self, value: i64)
        requires
            old(self)@.len() < 0x10000,
        ensures
            final(self)@ == old(self)@.push(value),
    {
        self.operands.push(value);
    }

    /// How many values the pool holds.
    pub fn len(&self) -> (r: usize)
        ensures
            r == self@.len(),
    {
        self.operands.len()
    }
}

/// The pooled value at an index, or zero when the index is out of range.
pub open spec fn pool_val(pool: Seq<i64>, idx: int) -> i64 {
    if 0 <= idx < pool.len() {
        pool[idx]
    } else {
        0
    }
}

/// `find_first` restricted to indices at or after `i`.
pub open spec fn find_first_from(s: Seq<i64>, v: i64, i: int) -> int
    decreases s.len() - i,
{
    if i < 0 || i >= s.len() {
        -1
    } else if s[i] == v {
        i
    } else {
        find_first_from(s, v, i + 1)
    }
}

proof fn lemma_find_first_from_here(s: Seq<i64>, v: i64, i: int)
    requires
        0 <= i < s.len(),
        s[i] == v,
        find_first(s, v) == find_first_from(s, v, i),
    ensures
        find_first(s, v) == i,
{
}

proof fn lemma_find_first_from_next(s: Seq<i64>, v: i64, i: int)
    requires
        0 <= i < s.len(),
        s[i] != v,
    ensures
        find_first_from(s, v, i) == find_first_from(s, v, i + 1),
{
}

proof fn lemma_find_first_from_end(s: Seq<i64>, v: i64, i: int)
    requires
        i >= s.len(),
    ensures
        find_first_from(s, v, i) == -1,
{
}

// ---------------------------------------------------------------------
// Template substitution and conversion.
// ---------------------------------------------------------------------

/// A template with `a`, `b`, `c` replaced by the renderings of three
/// values.
pub open spec fn subst_chars(p: Seq<char>, va: i64, vb: i64, vc: i64) -> Seq<char>
    decreases p.len(),
{
    if p.len() == 0 {
        p
    } else {
        (if p[0] == 'a' {
            fx_chars(va as int)
        } else if p[0] == 'b' {
            fx_chars(vb as int)
        } else if p[0] == 'c' {
            fx_chars(vc as int)
        } else {
            seq![p[0]]
        }) + subst_chars(p.skip(1), va, vb, vc)
    }
}

/// Renders a template, substituting the operand values.
fn render_pattern(p: &str, va: i64, vb: i64, vc: i64) -> (r: String)
    ensures
        r@ == subst_chars(p@, va, vb, vc),
{
    let len = p.unicode_len();
    let mut out = String::new();
    let mut i: usize = 0;
    proof {
        assert(p@.skip(0) =~= p@);
        assert(out@ + subst_chars(p@, va, vb, vc) =~= subst_chars(p@, va, vb, vc));
    }
    while i < len
        invariant
            i <= len,
            len == p@.len(),
            subst_chars(p@, va, vb, vc) == out@ + subst_chars(p@.skip(i as int), va, vb, vc),
        decreases len - i,
    {
        let ghost pre = out@;
        let ghost rest = p@.skip(i as int);
        let c = p.get_char(i);
        proof {
            assert(rest[0] == c);
            assert(rest.skip(1) =~= p@.skip(i + 1));
        }
        if c == 'a' {
            let v = fx_to_string(va);
            out.append(v.as_str());
            proof {
                cs_assoc(pre, fx_chars(va as int), subst_chars(p@.skip(i + 1), va, vb, vc));
            }
        } else if c == 'b' {
            let v = fx_to_string(vb);
            out.append(v.as_str());
            proof {
                cs_assoc(pre, fx_chars(vb as int), subst_chars(p@.skip(i + 1), va, vb, vc));
            }
        } else if c == 'c' {
            let v = fx_to_string(vc);
            out.append(v.as_str());
            proof {
                cs_assoc(pre, fx_chars(vc as int), subst_chars(p@.skip(i + 1), va, vb, vc));
            }
        } else {
            push_char(&mut out, c);
            proof {
                assert(out@ =~= pre + seq![c]);
                cs_assoc(pre, seq![c], subst_chars(p@.skip(i + 1), va, vb, vc));
            }
        }
        i = i + 1;
    }
    proof {
        assert(p@.skip(len as int) =~= Seq::<char>::empty());
        assert(out@ + subst_chars(Seq::<char>::empty(), va, vb, vc) =~= out@);
    }
    out
}

/// Concatenation of character sequences is associative.
proof fn cs_assoc(a: Seq<char>, b: Seq<char>, c: Seq<char>)
    ensures
        (a + b) + c == a + (b + c),
{
    assert((a + b) + c =~= a + (b + c));
}

/// The equation a compact record reconstructs to: its code's template
/// with the pooled operand values substituted.
pub open spec fn recon_chars(code: u8, operands: Seq<u16>, pool: Seq<i64>) -> Seq<char> {
    subst_chars(
        op_pattern_chars(code),
        pool_val(pool, operands[0] as int),
        pool_val(pool, operands[1] as int),
        pool_val(pool, operands[2] as int),
    )
}

/// Reconstructs an equation string from a compact record's code and
/// operand indices.
pub fn reconstruct_equation(op_code: u8, operands: &[u16; 3], pool: &OperandPool) -> (r: String)
    ensures
        r@ == recon_chars(op_code, operands@, pool@),
{
    let pattern = op_pattern(op_code);
    let va = pool.get_or_zero(operands[0]);
    let vb = pool.get_or_zero(operands[1]);
    let vc = pool.get_or_zero(operands[2]);
    render_pattern(pattern, va, vb, vc)
}

/// An `i64` clamped into 32 bits.
pub open spec fn clamp_i32(v: int) -> int {
    if v > 0x7fff_ffff {
        0x7fff_ffff
    } else if v < -0x8000_0000 {
        -0x8000_0000
    } else {
        v
    }
}

/// The saturated seconds between a timestamp and the store's start.
pub open spec fn delta_secs(timestamp: u64, start_time: u64) -> int {
    if timestamp >= start_time {
        vstd::math::min((timestamp - start_time) / 1000, 0xffff)
    } else {
        0
    }
}

impl CompactSolution {
    /// Compresses a solution: the result truncated to 32 bits, the shape
    /// inferred from the equation's operator counts, and the first three
    /// operands interned in the pool.
    pub fn from_math_solution(solution: &MathSolution, operand_pool: &mut OperandPool,
        start_time: u64) -> (r: CompactSolution)
        requires
            old(operand_pool)@.len() <= 0x10000,
        ensures
            final(operand_pool)@.len() <= 0x10000,
            r.result as int == clamp_i32(solution.result as int),
            r.operation_code == op_code_of(solution.equation@),
            r.timestamp_delta as int == delta_secs(solution.timestamp, start_time),
            final(operand_pool)@.len() >= old(operand_pool)@.len(),
            forall|k: int|
                0 <= k < old(operand_pool)@.len() ==> final(operand_pool)@[k] == old(
                    operand_pool,
                )@[k],
            ({
                let nums = extracted_nums(solution.equation@);
                old(operand_pool)@.len() + 3 <= 0x10000 ==> forall|k: int|
                    0 <= k < 3 && k < nums.len() ==> (#[trigger] r.operands@[k])
                        < final(operand_pool)@.len()
                        && final(operand_pool)@[r.operands@[k] as int] == nums[k]
            }),
            forall|k: int|
                0 <= k < 3 && k >= extracted_nums(solution.equation@).len()
                    ==> (#[trigger] r.operands@[k]) == 0,
    {
        let operation_code = parse_operation_code(solution.equation.as_str());
        let operands = operand_pool.register_operands(solution.equation.as_str());
        let delta64: u64 = if solution.timestamp >= start_time {
            let d = (solution.timestamp - start_time) / 1000;
            if d > 0xffff {
                0xffff
            } else {
                d
            }
        } else {
            0
        };
        let result32: i32 = if solution.result > 2147483647 {
            2147483647
        } else if solution.result < -2147483648 {
            -2147483648
        } else {
            solution.result as i32
        };
        CompactSolution {
            result: result32,
            operation_code,
            operands,
            timestamp_delta: delta64 as u16,
        }
    }

    /// Expands a compact record back into a solution: the equation is
    /// reconstructed from the code table and the pool, and a cached
    /// solution counts as perfectly accurate.
    pub fn to_math_solution(&self, operand_pool: &OperandPool, start_time: u64) -> (r:
        MathSolution)
        ensures
            r.result == self.result as i64,
            r.equation@ == recon_chars(self.operation_code, self.operands@, operand_pool@),
            r.accuracy == ACC_PERFECT,
            r.attempts == 1,
            r.timestamp as int == start_time as int + (self.timestamp_delta as int) * 1000
                || r.timestamp == u64::MAX,
            r.formula is None,
    {
        let equation = reconstruct_equation(self.operation_code, &self.operands, operand_pool);
        let delta_ms: u64 = (self.timestamp_delta as u64) * 1000;
        let timestamp: u64 = if start_time <= u64::MAX - delta_ms {
            start_time + delta_ms
        } else {
            u64::MAX
        };
        MathSolution {
            result: self.result as i64,
            equation,
            accuracy: ACC_PERFECT,
            timestamp,
            attempts: 1,
            formula: None,
        }
    }
}

} // verus!
