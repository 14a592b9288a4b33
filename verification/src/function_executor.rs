//! Extraction of the printable content of a generated print statement.
//! Statements are ASCII by construction; a non-ASCII statement is not
//! recognized.

use vstd::prelude::*;
use crate::text::{starts_with_chars, ends_with_chars, str_starts_with, str_ends_with, push_char};

verus! {

/// Replaces every escaped quote pair with a plain quote.
pub open spec fn unescape_quotes(s: Seq<char>) -> Seq<char>
    decreases s.len(),
{
    if s.len() == 0 {
        s
    } else if s.len() >= 2 && s[0] == '\\' && s[1] == '"' {
        seq!['"'] + unescape_quotes(s.skip(2))
    } else {
        seq![s[0]] + unescape_quotes(s.skip(1))
    }
}

/// The quoted body of a print statement, in either its plain or its
/// escaped form, or nothing when the text is not a recognized print
/// statement.
pub open spec fn println_content(s: Seq<char>) -> Option<Seq<char>> {
    if starts_with_chars(s, "println!(\""@) && ends_with_chars(s, "\")"@) {
        Some(unescape_quotes(s.subrange(9, s.len() - 2)))
    } else if starts_with_chars(s, "println!(\\\""@) && ends_with_chars(s, "\\\")"@) && s.len()
        >= 14 {
        Some(s.subrange(11, s.len() - 3))
    } else {
        None
    }
}

/// Executes built functions; it holds no state of its own.
pub struct FunctionExecutor {}

impl FunctionExecutor {
    pub fn new() -> (r: Self) {
        FunctionExecutor {  }
    }

    /// The quoted content of a print statement, unescaped; `None` when
    /// the statement is not a recognized print form or is not ASCII.
    pub fn extract_println_content(&self, statement: &str) -> (r: Option<String>)
        ensures
            r matches Some(out) ==> println_content(statement@) matches Some(c) && out@ == c,
            r is None ==> println_content(statement@) is None || !vstd::string::is_ascii(
                statement,
            ),
    {
        if !statement.is_ascii() {
            return None;
        }
        if str_starts_with(statement, "println!(\"") && str_ends_with(statement, "\")") {
            let len = statement.unicode_len();
            proof {
                reveal_strlit("println!(\"");
                reveal_strlit("\")");
                assert(statement@[9] == statement@.subrange(0, 10)[9]);
                assert(statement@[len - 1] == statement@.subrange(
                    statement@.len() - 2,
                    statement@.len() as int,
                )[1]);
                assert(statement@[9] == '"');
                assert(statement@[len - 1] == ')');
                assert(len >= 11) by {
                    if len == 10 {
                        assert(statement@[9] == ')');
                    }
                }
            }
            let content = copy_unescaped(statement, 9, len - 2);
            Some(content)
        } else if str_starts_with(statement, "println!(\\\"") && str_ends_with(
            statement,
            "\\\")",
        ) {
            let len = statement.unicode_len();
            if len >= 14 {
                let content = copy_plain(statement, 11, len - 3);
                Some(content)
            } else {
                None
            }
        } else {
            None
        }
    }
}

/// Copies the characters of `s` between `from` and `to`, replacing each
/// escaped quote pair with a plain quote.
fn copy_unescaped(s: &str, from: usize, to: usize) -> (r: String)
    requires
        from <= to <= s@.len(),
    ensures
        r@ == unescape_quotes(s@.subrange(from as int, to as int)),
{
    let mut out = String::new();
    let mut i: usize = from;
    let ghost content = s@.subrange(from as int, to as int);
    proof {
        assert(s@.subrange(from as int, to as int) =~= content);
        assert(out@ + unescape_quotes(content) =~= unescape_quotes(content));
    }
    while i < to
        invariant
            from <= i <= to <= s@.len(),
            content == s@.subrange(from as int, to as int),
            unescape_quotes(content) == out@ + unescape_quotes(s@.subrange(i as int, to as int)),
        decreases to - i,
    {
        let ghost pre = out@;
        let ghost rest = s@.subrange(i as int, to as int);
        let c = s.get_char(i);
        if c == '\\' && i + 1 < to && s.get_char(i + 1) == '"' {
            push_char(&mut out, '"');
            proof {
                assert(rest[0] == '\\' && rest[1] == '"');
                assert(rest.skip(2) =~= s@.subrange(i + 2, to as int));
                assert(unescape_quotes(rest) == seq!['"'] + unescape_quotes(rest.skip(2)));
                seq_char_assoc(pre, seq!['"'], unescape_quotes(s@.subrange(i + 2, to as int)));
                assert(out@ =~= pre + seq!['"']);
            }
            i = i + 2;
        } else {
            push_char(&mut out, c);
            proof {
                assert(rest[0] == c);
                if rest.len() >= 2 {
                    assert(rest[1] == s@.subrange(i as int, to as int)[1]);
                }
                assert(!(rest.len() >= 2 && rest[0] == '\\' && rest[1] == '"'));
                assert(rest.skip(1) =~= s@.subrange(i + 1, to as int));
                assert(unescape_quotes(rest) == seq![c] + unescape_quotes(rest.skip(1)));
                seq_char_assoc(pre, seq![c], unescape_quotes(s@.subrange(i + 1, to as int)));
                assert(out@ =~= pre + seq![c]);
            }
            i = i + 1;
        }
    }
    proof {
        assert(s@.subrange(to as int, to as int) =~= Seq::<char>::empty());
        assert(out@ + unescape_quotes(Seq::<char>::empty()) =~= out@);
    }
    out
}

/// Copies the characters of `s` between `from` and `to` unchanged.
fn copy_plain(s: &str, from: usize, to: usize) -> (r: String)
    requires
        from <= to <= s@.len(),
    ensures
        r@ == s@.subrange(from as int, to as int),
{
    let mut out = String::new();
    proof {
        assert(out@ =~= s@.subrange(from as int, from as int));
    }
    let mut i: usize = from;
    while i < to
        invariant
            from <= i <= to <= s@.len(),
            out@ == s@.subrange(from as int, i as int),
        decreases to - i,
    {
        let c = s.get_char(i);
        push_char(&mut out, c);
        proof {
            assert(out@ =~= s@.subrange(from as int, i + 1));
        }
        i = i + 1;
    }
    out
}

/// Concatenation of character sequences is associative.
proof fn seq_char_assoc(a: Seq<char>, b: Seq<char>, c: Seq<char>)
    ensures
        (a + b) + c == a + (b + c),
{
    assert((a + b) + c =~= a + (b + c));
}

} // verus!
