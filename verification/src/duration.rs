//! Durations written as `<h>h<m>m<s>s`: every component optional, each a run
//! of decimal digits followed by its unit letter, in that order, with nothing
//! else in the string. A duration of zero total seconds is rejected. The
//! companion formatter renders a number of seconds as `h:mm:ss` (or `m:ss`
//! when there is no whole hour).

use vstd::prelude::*;
use vstd::string::StrSliceExecFns;
use vstd::string::StringExecFns;
use crate::decimal::is_digit;
use crate::decimal::digit_val;
use crate::decimal::digits_val;
use crate::decimal::digit_run_len;
use crate::decimal::lemma_digits_val_nonneg;
use crate::decimal::lemma_digit_run_chars;
use crate::decimal::digit_run_end;

verus! {

/// A positive span of time, counted in whole seconds.
#[derive(Debug, Clone, Copy, PartialEq, Eq, Structural)]
pub struct Duration {
    pub total_secs: u64,
}

/// Where parsing stands after the optional `<digits><unit>` component that
/// begins at `i`: just past the unit letter if the component is present
/// (a nonempty digit run followed by `unit`), else still at `i`.
pub open spec fn component_end(s: Seq<char>, i: int, unit: char) -> int {
    let n = digit_run_len(s, i);
    if n > 0 && i + n < s.len() && s[i + n] == unit {
        i + n + 1
    } else {
        i
    }
}

/// The value of the optional component at `i`, zero when absent.
pub open spec fn component_val(s: Seq<char>, i: int, unit: char) -> int {
    let n = digit_run_len(s, i);
    if component_end(s, i, unit) != i {
        digits_val(s.subrange(i, i + n))
    } else {
        0
    }
}

/// Position after the hours component.
pub open spec fn after_hours(s: Seq<char>) -> int {
    component_end(s, 0, 'h')
}

/// Position after the minutes component.
pub open spec fn after_minutes(s: Seq<char>) -> int {
    component_end(s, after_hours(s), 'm')
}

/// Position after the seconds component.
pub open spec fn after_seconds(s: Seq<char>) -> int {
    component_end(s, after_minutes(s), 's')
}

/// The string is hours, then minutes, then seconds, each optional, with
/// nothing left over. The empty string has this shape too; it is rejected
/// separately for its zero total.
pub open spec fn duration_format_ok(s: Seq<char>) -> bool {
    after_seconds(s) == s.len()
}

/// The total seconds the string denotes, as an unbounded integer.
pub open spec fn duration_total(s: Seq<char>) -> int {
    component_val(s, 0, 'h') * 3600 + component_val(s, after_hours(s), 'm') * 60 + component_val(
        s,
        after_minutes(s),
        's',
    )
}

/// Parse one optional `<digits><unit>` component beginning at `i`.
/// Returns the component's value (`None` when it exceeds `u64::MAX`) and the
/// position just past the component.
fn scan_component(input: &str, len: usize, i: usize, unit: char) -> (res: (Option<u64>, usize))
    requires
        len == input@.len(),
        i <= len,
    ensures
        res.1 == component_end(input@, i as int, unit),
        i <= res.1 <= len,
        component_val(input@, i as int, unit) >= 0,
        match res.0 {
            Some(v) => v == component_val(input@, i as int, unit),
            None => component_val(input@, i as int, unit) > u64::MAX,
        },
{
    let ghost s = input@;
    let run_end = digit_run_end(input, len, i);
    if run_end == i || run_end >= len || input.get_char(run_end) != unit {
        proof {
            assert(component_end(s, i as int, unit) == i);
        }
        return (Some(0), i);
    }
    let ghost run = s.subrange(i as int, run_end as int);
    proof {
        assert(run.len() == digit_run_len(s, i as int));
        assert(forall|k: int| 0 <= k < run.len() ==> is_digit(#[trigger] run[k])) by {
            assert forall|k: int| 0 <= k < run.len() implies is_digit(#[trigger] run[k]) by {
                lemma_digit_run_chars(s, i as int, i + k);
            }
        }
        assert(component_end(s, i as int, unit) == run_end + 1);
        assert(component_val(s, i as int, unit) == digits_val(run));
    }
    let mut j: usize = i;
    let mut acc: Option<u64> = Some(0);
    while j < run_end
        invariant
            len == input@.len(),
            s == input@,
            i <= j <= run_end <= len,
            run_end == i + digit_run_len(s, i as int),
            run == s.subrange(i as int, run_end as int),
            forall|k: int| 0 <= k < run.len() ==> is_digit(#[trigger] run[k]),
            match acc {
                Some(v) => v == digits_val(s.subrange(i as int, j as int)),
                None => digits_val(s.subrange(i as int, j as int)) > u64::MAX,
            },
        decreases run_end - j,
    {
        let c = input.get_char(j);
        proof {
            assert(run[j - i] == s[j as int]);
            assert(is_digit(c));
            assert(s.subrange(i as int, (j + 1) as int).drop_last() =~= s.subrange(
                i as int,
                j as int,
            ));
            assert(digits_val(s.subrange(i as int, (j + 1) as int)) == digits_val(
                s.subrange(i as int, j as int),
            ) * 10 + digit_val(s[j as int]));
            assert(forall|k: int|
                0 <= k < s.subrange(i as int, j as int).len() ==> is_digit(
                    #[trigger] s.subrange(i as int, j as int)[k],
                ));
            lemma_digits_val_nonneg(s.subrange(i as int, j as int));
        }
        let d: u64 = (c as u32 - 48) as u64;
        acc = match acc {
            Some(v) => match v.checked_mul(10) {
                Some(x) => x.checked_add(d),
                None => None,
            },
            None => None,
        };
        j = j + 1;
    }
    proof {
        assert(s.subrange(i as int, run_end as int) == run);
    }
    (acc, run_end + 1)
}

/// The error text for a string that is not of the duration shape.
pub open spec fn invalid_format_msg(s: Seq<char>) -> Seq<char> {
    "Invalid duration format: '"@ + s + "'"@
}

/// The error text for a well-shaped duration whose total is zero.
pub open spec fn zero_duration_msg() -> Seq<char> {
    "Duration must be greater than zero"@
}

/// The error text for a well-shaped duration that does not fit in `u64` seconds.
pub open spec fn overlarge_duration_msg() -> Seq<char> {
    "Duration is too large"@
}

impl Duration {
    /// Parse a duration string. Returns the error for a string that is not of
    /// the `<h>h<m>m<s>s` shape, for one whose total is zero, and for one
    /// whose total does not fit in `u64` seconds.
    pub fn parse(input: &str) -> (r: Result<Duration, String>)
        ensures
            match r {
                Ok(d) => duration_format_ok(input@) && d.total_secs == duration_total(input@)
                    && d.total_secs > 0,
                Err(e) => {
                    &&& !duration_format_ok(input@) || duration_total(input@) == 0
                        || duration_total(input@) > u64::MAX
                    &&& !duration_format_ok(input@) ==> e@ == invalid_format_msg(input@)
                    &&& duration_format_ok(input@) && duration_total(input@) == 0 ==> e@
                        == zero_duration_msg()
                    &&& duration_format_ok(input@) && duration_total(input@) > u64::MAX ==> e@
                        == overlarge_duration_msg()
                },
            },
    {
        let ghost s = input@;
        let len = input.unicode_len();
        let (hv, i1) = scan_component(input, len, 0, 'h');
        let (mv, i2) = scan_component(input, len, i1, 'm');
        let (sv, i3) = scan_component(input, len, i2, 's');
        if i3 != len {
            let msg = String::from_str("Invalid duration format: '").concat(input).concat("'");
            return Err(msg);
        }
        proof {
            assert(duration_format_ok(s));
        }
        let total: Option<u64> = match (hv, mv, sv) {
            (Some(h), Some(m), Some(sec)) => match h.checked_mul(3600) {
                Some(hs) => match m.checked_mul(60) {
                    Some(ms) => match hs.checked_add(ms) {
                        Some(hm) => hm.checked_add(sec),
                        None => None,
                    },
                    None => None,
                },
                None => None,
            },
            _ => None,
        };
        match total {
            Some(t) => {
                if t == 0 {
                    Err(String::from_str("Duration must be greater than zero"))
                } else {
                    Ok(Duration { total_secs: t })
                }
            },
            None => Err(String::from_str("Duration is too large")),
        }
    }

    /// Render the duration as `h:mm:ss`, or `m:ss` when under an hour.
    pub fn format_hms(&self) -> (r: String)
        ensures
            r@ == spec_format_hms(self.total_secs as int),
    {
        let h = self.total_secs / 3600;
        let m = (self.total_secs % 3600) / 60;
        let s = self.total_secs % 60;

        let r = if h > 0 {
            crate::decimal::u64_to_dec(h).concat(":").concat(
                crate::decimal::u64_to_two_digits(m).as_str(),
            ).concat(":").concat(crate::decimal::u64_to_two_digits(s).as_str())
        } else {
            crate::decimal::u64_to_dec(m).concat(":").concat(
                crate::decimal::u64_to_two_digits(s).as_str(),
            )
        };
        proof {
            reveal_strlit(":");
            assert(r@ =~= spec_format_hms(self.total_secs as int));
        }
        r
    }
}

/// The `h:mm:ss` (or `m:ss`) rendering of a number of seconds.
pub open spec fn spec_format_hms(total: int) -> Seq<char> {
    let h = total / 3600;
    let m = (total % 3600) / 60;
    let s = total % 60;
    if h > 0 {
        crate::decimal::dec_digits(h) + seq![':'] + crate::decimal::two_digits(m) + seq![':']
            + crate::decimal::two_digits(s)
    } else {
        crate::decimal::dec_digits(m) + seq![':'] + crate::decimal::two_digits(s)
    }
}

} // verus!
