//! Character classes and small string utilities shared by the
//! tokenizer, the validator and the display formatter.

use vstd::prelude::*;
use vstd::string::StrSliceExecFns;

verus! {

/// A decimal digit, `'0'` through `'9'`.
pub open spec fn spec_is_digit(c: char) -> bool {
    '0' <= c && c <= '9'
}

/// Executable test for a decimal digit.
pub fn char_is_digit(c: char) -> (r: bool)
    ensures
        r == spec_is_digit(c),
{
    '0' <= c && c <= '9'
}

/// Numeric value of a digit character.
pub open spec fn spec_digit_val(c: char) -> int {
    c as int - '0' as int
}

/// Executable digit value.
pub fn digit_val(c: char) -> (r: u64)
    requires
        spec_is_digit(c),
    ensures
        r == spec_digit_val(c),
        r <= 9,
{
    (c as u32 - '0' as u32) as u64
}

/// A character the validator lets through: digits, the operator and
/// parenthesis characters, the decimal point, the exponent letters,
/// and the space.
pub open spec fn spec_is_valid_char(c: char) -> bool {
    ||| spec_is_digit(c)
    ||| c == '+'
    ||| c == '-'
    ||| c == 'x'
    ||| c == 'X'
    ||| c == '*'
    ||| c == '/'
    ||| c == '÷'
    ||| c == '.'
    ||| c == 'e'
    ||| c == 'E'
    ||| c == '('
    ||| c == ')'
    ||| c == ' '
}

/// Executable test for the validator's character set.
pub fn char_is_valid(c: char) -> (r: bool)
    ensures
        r == spec_is_valid_char(c),
{
    char_is_digit(c) || c == '+' || c == '-' || c == 'x' || c == 'X' || c == '*' || c == '/'
        || c == '÷' || c == '.' || c == 'e' || c == 'E' || c == '(' || c == ')' || c == ' '
}

/// One of the four operator characters the input handlers write into
/// the expression buffer: `+`, `-`, `x`, `÷`.
pub open spec fn spec_is_buf_op(c: char) -> bool {
    c == '+' || c == '-' || c == 'x' || c == '÷'
}

/// Executable test for the buffer operator characters.
pub fn char_is_buf_op(c: char) -> (r: bool)
    ensures
        r == spec_is_buf_op(c),
{
    c == '+' || c == '-' || c == 'x' || c == '÷'
}

/// An operator or parenthesis character; their absence sends an input
/// down the single-literal fast path of evaluation.
pub open spec fn spec_is_structural(c: char) -> bool {
    c == '+' || c == '-' || c == 'x' || c == 'X' || c == '*' || c == '/' || c == '÷' || c == '('
        || c == ')'
}

/// Executable test for operator and parenthesis characters.
pub fn char_is_structural(c: char) -> (r: bool)
    ensures
        r == spec_is_structural(c),
{
    c == '+' || c == '-' || c == 'x' || c == 'X' || c == '*' || c == '/' || c == '÷' || c == '('
        || c == ')'
}

/// The sequence with leading spaces removed.
pub open spec fn trim_front(s: Seq<char>) -> Seq<char>
    decreases s.len(),
{
    if s.len() > 0 && s[0] == ' ' {
        trim_front(s.subrange(1, s.len() as int))
    } else {
        s
    }
}

/// The sequence with trailing spaces removed.
pub open spec fn trim_back(s: Seq<char>) -> Seq<char>
    decreases s.len(),
{
    if s.len() > 0 && s.last() == ' ' {
        trim_back(s.drop_last())
    } else {
        s
    }
}

/// The sequence with leading and trailing spaces removed.
pub open spec fn spec_trim(s: Seq<char>) -> Seq<char> {
    trim_back(trim_front(s))
}

/// Removes leading and trailing spaces.
#[verifier::loop_isolation(false)]
pub fn trim_chars(v: &Vec<char>) -> (r: Vec<char>)
    ensures
        r@ == spec_trim(v@),
{
    let len = v.len();
    proof {
        assert(v@.subrange(0, len as int) =~= v@);
    }
    let mut lo: usize = 0;
    while lo < len && v[lo] == ' '
        invariant
            lo <= len,
            trim_front(v@) == trim_front(v@.subrange(lo as int, len as int)),
        decreases len - lo,
    {
        proof {
            assert(v@.subrange(lo as int, len as int).subrange(
                1,
                v@.subrange(lo as int, len as int).len() as int,
            ) =~= v@.subrange(lo + 1, len as int));
        }
        lo = lo + 1;
    }
    proof {
        assert(trim_front(v@) == v@.subrange(lo as int, len as int));
    }
    let mut hi: usize = len;
    while hi > lo && v[hi - 1] == ' '
        invariant
            lo <= hi <= len,
            trim_back(v@.subrange(lo as int, len as int)) == trim_back(
                v@.subrange(lo as int, hi as int),
            ),
        decreases hi,
    {
        proof {
            assert(v@.subrange(lo as int, hi as int).drop_last() =~= v@.subrange(
                lo as int,
                hi - 1,
            ));
        }
        hi = hi - 1;
    }
    proof {
        assert(trim_back(v@.subrange(lo as int, len as int)) == v@.subrange(lo as int, hi as int));
    }
    let mut r: Vec<char> = Vec::new();
    let mut i: usize = lo;
    while i < hi
        invariant
            lo <= i <= hi,
            r@ == v@.subrange(lo as int, i as int),
        decreases hi - i,
    {
        let c = v[i];
        r.push(c);
        proof {
            assert(r@ =~= v@.subrange(lo as int, (i + 1) as int));
        }
        i = i + 1;
    }
    proof {
        assert(r@ =~= v@.subrange(lo as int, hi as int));
    }
    r
}

/// Relies on `String::push`: appends exactly the one character.
#[verifier::external_body]
fn push_char(s: &mut String, c: char)
    ensures
        final(s)@ == old(s)@.push(c),
{
    s.push(c);
}

/// Builds a `String` holding exactly the given characters.
pub fn string_from_chars(v: &Vec<char>) -> (s: String)
    ensures
        s@ == v@,
{
    let mut s = String::new();
    let mut i: usize = 0;
    while i < v.len()
        invariant
            i <= v@.len(),
            s@ == v@.subrange(0, i as int),
        decreases v@.len() - i,
    {
        push_char(&mut s, v[i]);
        proof {
            assert(s@ =~= v@.subrange(0, (i + 1) as int));
        }
        i = i + 1;
    }
    proof {
        assert(s@ =~= v@);
    }
    s
}

/// The characters of a string slice, in order.
pub fn chars_from_str(s: &str) -> (v: Vec<char>)
    ensures
        v@ == s@,
{
    let n = s.unicode_len();
    let mut v: Vec<char> = Vec::new();
    let mut i: usize = 0;
    while i < n
        invariant
            i <= n == s@.len(),
            v@ == s@.subrange(0, i as int),
        decreases n - i,
    {
        let c = s.get_char(i);
        v.push(c);
        proof {
            assert(v@ =~= s@.subrange(0, (i + 1) as int));
        }
        i = i + 1;
    }
    proof {
        assert(v@ =~= s@);
    }
    v
}

} // verus!
