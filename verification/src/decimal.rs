//! Decimal digits as text: what a digit run is worth when read, and the
//! plain and two-digit zero-padded renderings the clock faces use.

use vstd::prelude::*;
use vstd::string::StrSliceExecFns;
use vstd::string::StringExecFns;

verus! {

/// A decimal digit.
pub open spec fn is_digit(c: char) -> bool {
    48 <= (c as u32) && (c as u32) <= 57
}

/// The value of one decimal digit.
pub open spec fn digit_val(c: char) -> int {
    (c as u32) - 48
}

/// The value of a run of decimal digits, most significant first.
pub open spec fn digits_val(s: Seq<char>) -> int
    decreases s.len(),
{
    if s.len() == 0 {
        0
    } else {
        digits_val(s.drop_last()) * 10 + digit_val(s.last())
    }
}

/// The length of the maximal run of digits in `s` starting at `i`.
pub open spec fn digit_run_len(s: Seq<char>, i: int) -> int
    decreases s.len() - i,
{
    if 0 <= i < s.len() && is_digit(s[i]) {
        1 + digit_run_len(s, i + 1)
    } else {
        0
    }
}

/// A run of digits has a non-negative value.
pub proof fn lemma_digits_val_nonneg(s: Seq<char>)
    requires
        forall|k: int| 0 <= k < s.len() ==> is_digit(#[trigger] s[k]),
    ensures
        digits_val(s) >= 0,
    decreases s.len(),
{
    if s.len() > 0 {
        assert(forall|k: int|
            0 <= k < s.drop_last().len() ==> is_digit(#[trigger] s.drop_last()[k]));
        lemma_digits_val_nonneg(s.drop_last());
    }
}

/// Every position in a digit run holds a digit.
pub proof fn lemma_digit_run_chars(s: Seq<char>, i: int, k: int)
    requires
        0 <= i <= k < i + digit_run_len(s, i),
    ensures
        0 <= k < s.len() && is_digit(s[k]),
    decreases k - i,
{
    if k > i {
        lemma_digit_run_chars(s, i + 1, k);
    }
}

/// Whether `c` is a decimal digit.
pub(crate) fn char_is_digit(c: char) -> (r: bool)
    ensures
        r == is_digit(c),
{
    let u = c as u32;
    48 <= u && u <= 57
}

/// Find the end of the digit run starting at `start`.
pub(crate) fn digit_run_end(input: &str, len: usize, start: usize) -> (end: usize)
    requires
        len == input@.len(),
        start <= len,
    ensures
        end == start + digit_run_len(input@, start as int),
        start <= end <= len,
{
    let mut end: usize = start;
    while end < len && char_is_digit(input.get_char(end))
        invariant
            len == input@.len(),
            start <= end <= len,
            digit_run_len(input@, start as int) == (end - start) + digit_run_len(
                input@,
                end as int,
            ),
        decreases len - end,
    {
        end = end + 1;
    }
    end
}

/// The digits of a decimal number text, after the optional leading plus sign.
pub open spec fn unsigned_body(s: Seq<char>) -> Seq<char> {
    if s.len() > 0 && s[0] == '+' {
        s.drop_first()
    } else {
        s
    }
}

/// A decimal number text: an optional plus sign, then at least one digit and
/// nothing else.
pub open spec fn is_unsigned_dec(s: Seq<char>) -> bool {
    let body = unsigned_body(s);
    body.len() > 0 && forall|k: int| 0 <= k < body.len() ==> is_digit(#[trigger] body[k])
}

/// The value of a decimal number text.
pub open spec fn unsigned_dec_val(s: Seq<char>) -> int {
    digits_val(unsigned_body(s))
}

/// Parse a `u32` from decimal text: an optional plus sign, then digits.
/// `None` for any other shape and for a value that does not fit.
pub fn parse_u32(input: &str) -> (r: Option<u32>)
    ensures
        match r {
            Some(v) => is_unsigned_dec(input@) && v == unsigned_dec_val(input@),
            None => !is_unsigned_dec(input@) || unsigned_dec_val(input@) > u32::MAX,
        },
{
    let ghost s = input@;
    let len = input.unicode_len();
    let start: usize = if len > 0 && input.get_char(0) == '+' {
        1
    } else {
        0
    };
    let ghost body = unsigned_body(s);
    proof {
        if start == 1 {
            assert(body =~= s.skip(1));
        } else {
            assert(body =~= s);
        }
    }
    let end = digit_run_end(input, len, start);
    if end != len || end == start {
        proof {
            if is_unsigned_dec(s) {
                // A fully digit body would have made the run reach the end.
                assert forall|k: int| start <= k < len implies is_digit(s[k]) by {
                    assert(body[k - start] == s[k]);
                }
                lemma_digit_run_full(s, start as int, len as int);
            }
        }
        return None;
    }
    proof {
        assert forall|k: int| 0 <= k < body.len() implies is_digit(#[trigger] body[k]) by {
            lemma_digit_run_chars(s, start as int, start + k);
            assert(body[k] == s[start + k]);
        }
        assert(is_unsigned_dec(s));
    }
    let mut j: usize = start;
    let mut acc: Option<u32> = Some(0);
    while j < end
        invariant
            len == input@.len(),
            s == input@,
            body == unsigned_body(s),
            start <= j <= end == len,
            end == start + digit_run_len(s, start as int),
            forall|k: int| 0 <= k < body.len() ==> is_digit(#[trigger] body[k]),
            body =~= s.skip(start as int),
            match acc {
                Some(v) => v == digits_val(s.subrange(start as int, j as int)),
                None => digits_val(s.subrange(start as int, j as int)) > u32::MAX,
            },
        decreases end - j,
    {
        let c = input.get_char(j);
        proof {
            assert(body[j - start] == s[j as int]);
            assert(is_digit(c));
            assert(s.subrange(start as int, (j + 1) as int).drop_last() =~= s.subrange(
                start as int,
                j as int,
            ));
            assert(digits_val(s.subrange(start as int, (j + 1) as int)) == digits_val(
                s.subrange(start as int, j as int),
            ) * 10 + digit_val(s[j as int]));
            assert(forall|k: int|
                0 <= k < s.subrange(start as int, j as int).len() ==> is_digit(
                    #[trigger] s.subrange(start as int, j as int)[k],
                ));
            lemma_digits_val_nonneg(s.subrange(start as int, j as int));
        }
        let d: u32 = c as u32 - 48;
        acc = match acc {
            Some(v) => match v.checked_mul(10) {
                Some(x) => x.checked_add(d),
                None => None,
            },
            None => None,
        };
        j = j + 1;
    }
    proof {
        assert(s.subrange(start as int, end as int) =~= body);
    }
    acc
}

/// A nonempty stretch of digits reaching the end of the string makes the
/// digit run starting at its head reach the end too.
proof fn lemma_digit_run_full(s: Seq<char>, i: int, len: int)
    requires
        len == s.len(),
        0 <= i <= len,
        forall|k: int| i <= k < len ==> is_digit(#[trigger] s[k]),
    ensures
        digit_run_len(s, i) == len - i,
    decreases len - i,
{
    if i < len {
        lemma_digit_run_full(s, i + 1, len);
    }
}

/// The decimal digit character for a value below ten.
pub open spec fn digit_char(d: int) -> char {
    if d == 0 {
        '0'
    } else if d == 1 {
        '1'
    } else if d == 2 {
        '2'
    } else if d == 3 {
        '3'
    } else if d == 4 {
        '4'
    } else if d == 5 {
        '5'
    } else if d == 6 {
        '6'
    } else if d == 7 {
        '7'
    } else if d == 8 {
        '8'
    } else {
        '9'
    }
}

/// The decimal rendering of a non-negative number, most significant digit
/// first, with no leading zeros (except for zero itself).
pub open spec fn dec_digits(n: int) -> Seq<char>
    decreases n,
{
    if n < 10 {
        seq![digit_char(n)]
    } else {
        dec_digits(n / 10) + seq![digit_char(n % 10)]
    }
}

/// The decimal rendering padded with a leading zero to at least two digits.
pub open spec fn two_digits(n: int) -> Seq<char> {
    if n < 10 {
        seq!['0', digit_char(n)]
    } else {
        dec_digits(n)
    }
}

/// The digit character for a value below ten.
pub fn digit_str(d: u64) -> (r: &'static str)
    requires
        d < 10,
    ensures
        r@ == seq![digit_char(d as int)],
{
    let r: &'static str = if d == 0 {
        "0"
    } else if d == 1 {
        "1"
    } else if d == 2 {
        "2"
    } else if d == 3 {
        "3"
    } else if d == 4 {
        "4"
    } else if d == 5 {
        "5"
    } else if d == 6 {
        "6"
    } else if d == 7 {
        "7"
    } else if d == 8 {
        "8"
    } else {
        "9"
    };
    proof {
        reveal_strlit("0");
        reveal_strlit("1");
        reveal_strlit("2");
        reveal_strlit("3");
        reveal_strlit("4");
        reveal_strlit("5");
        reveal_strlit("6");
        reveal_strlit("7");
        reveal_strlit("8");
        reveal_strlit("9");
        assert(r@ =~= seq![digit_char(d as int)]);
    }
    r
}

/// Render a number in decimal.
pub fn u64_to_dec(n: u64) -> (r: String)
    ensures
        r@ == dec_digits(n as int),
    decreases n,
{
    if n < 10 {
        digit_str(n).to_owned()
    } else {
        let rest = u64_to_dec(n / 10);
        let r = rest.concat(digit_str(n % 10));
        proof {
            assert(r@ =~= dec_digits(n as int));
        }
        r
    }
}

/// Render a number in decimal, zero-padded to at least two digits.
pub fn u64_to_two_digits(n: u64) -> (r: String)
    ensures
        r@ == two_digits(n as int),
{
    if n < 10 {
        let r = digit_str(0).to_owned().concat(digit_str(n));
        proof {
            assert(r@ =~= two_digits(n as int));
        }
        r
    } else {
        u64_to_dec(n)
    }
}

} // verus!
