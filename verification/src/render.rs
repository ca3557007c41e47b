//! What the timer hands to the terminal renderer, and the pure text pieces of
//! a frame: the clock face and the key hints. The drawing itself — colors,
//! cursor moves, the progress bar's float arithmetic — lives with the
//! terminal code outside the library.

use vstd::prelude::*;
use vstd::string::StringExecFns;
use crate::timer::TimerContext;
use crate::decimal::dec_digits;
use crate::decimal::two_digits;
use crate::decimal::u64_to_dec;
use crate::decimal::u64_to_two_digits;

verus! {

/// Everything one frame of the countdown shows.
pub struct DrawParams<'a> {
    pub remaining_secs: u64,
    pub total_secs: u64,
    pub elapsed_secs: u64,
    pub paused: bool,
    pub title: Option<&'a str>,
    pub round_info: Option<(u32, u32)>,
    pub context: TimerContext,
}

/// The renderer's fixed layout choices.
pub struct Renderer {
    pub bar_width: u16,
}

impl Renderer {
    /// A renderer with the standard thirty-cell progress bar.
    pub fn new() -> (r: Renderer)
        ensures
            r.bar_width == 30,
    {
        Renderer { bar_width: 30 }
    }
}

/// The `h:mm:ss` (or `mm:ss`) clock-face rendering of a number of seconds.
pub open spec fn spec_format_time(secs: int) -> Seq<char> {
    let h = secs / 3600;
    let m = (secs % 3600) / 60;
    let s = secs % 60;
    if h > 0 {
        dec_digits(h) + seq![':'] + two_digits(m) + seq![':'] + two_digits(s)
    } else {
        two_digits(m) + seq![':'] + two_digits(s)
    }
}

/// Render a number of seconds for the clock face: `h:mm:ss` with whole hours,
/// `mm:ss` below one hour.
pub fn format_time(secs: u64) -> (r: String)
    ensures
        r@ == spec_format_time(secs as int),
{
    let h = secs / 3600;
    let m = (secs % 3600) / 60;
    let s = secs % 60;
    let r = if h > 0 {
        u64_to_dec(h).concat(":").concat(u64_to_two_digits(m).as_str()).concat(":").concat(
            u64_to_two_digits(s).as_str(),
        )
    } else {
        u64_to_two_digits(m).concat(":").concat(u64_to_two_digits(s).as_str())
    };
    proof {
        reveal_strlit(":");
        assert(r@ =~= spec_format_time(secs as int));
    }
    r
}

/// The key-hint line for a phase's context: a session phase also offers the
/// round keys.
pub fn hint_line(context: TimerContext) -> (r: &'static str)
    ensures
        context == TimerContext::Standalone ==> r@ == "[space] pause  [s] skip  [x] stop"@,
        context != TimerContext::Standalone ==> r@
            == "[space] pause  [s] skip  [a] +round  [x] stop"@,
{
    match context {
        TimerContext::Standalone => "[space] pause  [s] skip  [x] stop",
        TimerContext::Work => "[space] pause  [s] skip  [a] +round  [x] stop",
        TimerContext::Break => "[space] pause  [s] skip  [a] +round  [x] stop",
    }
}

} // verus!
