//! A countdown timer library: phase clock arithmetic, duration parsing and
//! formatting, the timer engine's tick state machine, and the session
//! orchestrator that sequences work and break phases over a live-adjustable
//! round target.

use vstd::prelude::*;
use vstd::string::StrSliceExecFns;
use crate::config::Config;
use crate::config::SessionConfig;
use crate::config::spec_find;
use crate::duration::Duration;
use crate::duration::duration_format_ok;
use crate::duration::duration_total;

pub mod clock;
pub mod config;
pub mod decimal;
pub mod duration;
pub mod log;
pub mod render;
pub mod rounds;
pub mod session;
pub mod timer;

verus! {

/// What a command-line argument asks for, tried in this order: a session
/// name, a duration written out, then a preset name.
#[derive(Debug)]
pub enum InputResolution {
    /// The argument names a session: run it.
    Session(SessionConfig),
    /// The argument is a duration or a preset name: run one timer under the
    /// argument as its name.
    Timer { name: String, duration: Duration },
    /// The argument names a preset whose configured duration does not parse;
    /// the parse error is enclosed.
    InvalidPresetDuration(String),
    /// The argument is none of these.
    Unknown,
}

/// Whether a duration string parses: well-shaped, positive, and within range.
pub open spec fn spec_parses(s: Seq<char>) -> bool {
    duration_format_ok(s) && 0 < duration_total(s) <= u64::MAX
}

/// Resolve the command-line argument: a known session name runs that session;
/// otherwise a string that parses as a duration runs a timer of that length;
/// otherwise a known preset name runs a timer of the preset's duration — or
/// reports the configured duration as invalid; anything else is unknown.
pub fn resolve_input(config: &Config, input: &str) -> (r: InputResolution)
    ensures
        match r {
            InputResolution::Session(sc) => spec_find(config.sessions@, input@) == Some(sc),
            InputResolution::Timer { name, duration } => {
                &&& spec_find(config.sessions@, input@) is None
                &&& name@ == input@
                &&& if spec_parses(input@) {
                    duration.total_secs == duration_total(input@)
                } else {
                    spec_find(config.presets@, input@) matches Some(p) && spec_parses(p@)
                        && duration.total_secs == duration_total(p@)
                }
            },
            InputResolution::InvalidPresetDuration(_) => {
                &&& spec_find(config.sessions@, input@) is None
                &&& !spec_parses(input@)
                &&& spec_find(config.presets@, input@) matches Some(p) && !spec_parses(p@)
            },
            InputResolution::Unknown => {
                &&& spec_find(config.sessions@, input@) is None
                &&& !spec_parses(input@)
                &&& spec_find(config.presets@, input@) is None
            },
        },
{
    match config.resolve_session(input) {
        Some(sc) => {
            return InputResolution::Session(sc.clone());
        },
        None => {},
    }
    match Duration::parse(input) {
        Ok(d) => {
            return InputResolution::Timer { name: input.to_owned(), duration: d };
        },
        Err(_) => {},
    }
    match config.resolve_preset(input) {
        Some(preset_str) => match Duration::parse(preset_str) {
            Ok(d) => InputResolution::Timer { name: input.to_owned(), duration: d },
            Err(e) => InputResolution::InvalidPresetDuration(e),
        },
        None => InputResolution::Unknown,
    }
}

} // verus!
