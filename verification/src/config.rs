//! Presets and sessions by name. A preset maps a name to a duration string;
//! a session names its work, break and long-break presets and a round count.
//! The configuration is a list of name/value pairs looked up by first match,
//! and updated by replace-or-append, so a later write overrides an earlier
//! one. Reading and writing the configuration file is the caller's business;
//! the defaults, the lookups and the update rules are all here.

use vstd::prelude::*;
use vstd::string::StringExecFns;
use crate::decimal::is_unsigned_dec;
use crate::decimal::unsigned_dec_val;
use crate::decimal::parse_u32;
use crate::duration::Duration;
use crate::duration::duration_format_ok;
use crate::duration::duration_total;

verus! {

/// One session's shape: the preset names of its three phase kinds, and how
/// many rounds it runs.
#[derive(Debug)]
pub struct SessionConfig {
    pub work: String,
    pub break_preset: String,
    pub long_break: String,
    pub rounds: u32,
}

impl Clone for SessionConfig {
    /// An equal copy.
    fn clone(&self) -> (r: SessionConfig)
        ensures
            r == *self,
    {
        SessionConfig {
            work: self.work.clone(),
            break_preset: self.break_preset.clone(),
            long_break: self.long_break.clone(),
            rounds: self.rounds,
        }
    }
}

/// The named presets and sessions in force.
#[derive(Debug)]
pub struct Config {
    pub presets: Vec<(String, String)>,
    pub sessions: Vec<(String, SessionConfig)>,
}

/// The value under the first pair whose name matches, if any.
pub open spec fn spec_find<V>(pairs: Seq<(String, V)>, name: Seq<char>) -> Option<V>
    decreases pairs.len(),
{
    if pairs.len() == 0 {
        None
    } else if pairs[0].0@ == name {
        Some(pairs[0].1)
    } else {
        spec_find(pairs.drop_first(), name)
    }
}

impl Config {
    /// The built-in presets: a pomodoro of twenty-five minutes, a five-minute
    /// break and a fifteen-minute long break.
    pub fn defaults() -> (r: Vec<(String, String)>)
        ensures
            r@.len() == 3,
            r@[0].0@ == "pomodoro"@ && r@[0].1@ == "25m"@,
            r@[1].0@ == "break"@ && r@[1].1@ == "5m"@,
            r@[2].0@ == "long-break"@ && r@[2].1@ == "15m"@,
    {
        let mut r: Vec<(String, String)> = Vec::new();
        r.push((String::from_str("pomodoro"), String::from_str("25m")));
        r.push((String::from_str("break"), String::from_str("5m")));
        r.push((String::from_str("long-break"), String::from_str("15m")));
        r
    }

    /// The built-in sessions: one four-round pomodoro session.
    pub fn default_sessions() -> (r: Vec<(String, SessionConfig)>)
        ensures
            r@.len() == 1,
            r@[0].0@ == "pomodoro"@,
            r@[0].1.work@ == "pomodoro"@,
            r@[0].1.break_preset@ == "break"@,
            r@[0].1.long_break@ == "long-break"@,
            r@[0].1.rounds == 4,
    {
        let mut r: Vec<(String, SessionConfig)> = Vec::new();
        r.push(
            (
                String::from_str("pomodoro"),
                SessionConfig {
                    work: String::from_str("pomodoro"),
                    break_preset: String::from_str("break"),
                    long_break: String::from_str("long-break"),
                    rounds: 4,
                },
            ),
        );
        r
    }

    /// The configuration every run starts from: the built-in presets and
    /// sessions, before any user entries are laid over them.
    pub fn builtin() -> (r: Config)
        ensures
            r.presets@.len() == 3,
            r.presets@[0].0@ == "pomodoro"@ && r.presets@[0].1@ == "25m"@,
            r.presets@[1].0@ == "break"@ && r.presets@[1].1@ == "5m"@,
            r.presets@[2].0@ == "long-break"@ && r.presets@[2].1@ == "15m"@,
            r.sessions@.len() == 1,
            r.sessions@[0].0@ == "pomodoro"@,
            r.sessions@[0].1.work@ == "pomodoro"@,
            r.sessions@[0].1.break_preset@ == "break"@,
            r.sessions@[0].1.long_break@ == "long-break"@,
            r.sessions@[0].1.rounds == 4,
    {
        Config { presets: Config::defaults(), sessions: Config::default_sessions() }
    }

    /// The duration string under a preset name, if the name is known.
    pub fn resolve_preset<'a>(&'a self, name: &str) -> (r: Option<&'a str>)
        ensures
            r is Some == spec_find(self.presets@, name@) is Some,
            r is Some ==> r.unwrap()@ == spec_find(self.presets@, name@).unwrap()@,
    {
        let wanted = name.to_owned();
        let mut i: usize = 0;
        let len = self.presets.len();
        proof {
            assert(self.presets@.skip(0) =~= self.presets@);
        }
        while i < len
            invariant
                len == self.presets@.len(),
                i <= len,
                wanted@ == name@,
                spec_find(self.presets@, name@) == spec_find(
                    self.presets@.skip(i as int),
                    name@,
                ),
            decreases len - i,
        {
            proof {
                assert(self.presets@.skip(i as int)[0] == self.presets@[i as int]);
                assert(self.presets@.skip(i as int).drop_first() =~= self.presets@.skip(
                    i as int + 1,
                ));
            }
            if self.presets[i].0 == wanted {
                return Some(self.presets[i].1.as_str());
            }
            i = i + 1;
        }
        None
    }

    /// The session under a name, if the name is known.
    pub fn resolve_session<'a>(&'a self, name: &str) -> (r: Option<&'a SessionConfig>)
        ensures
            r is Some == spec_find(self.sessions@, name@) is Some,
            r is Some ==> *r.unwrap() == spec_find(self.sessions@, name@).unwrap(),
    {
        let wanted = name.to_owned();
        let mut i: usize = 0;
        let len = self.sessions.len();
        proof {
            assert(self.sessions@.skip(0) =~= self.sessions@);
        }
        while i < len
            invariant
                len == self.sessions@.len(),
                i <= len,
                wanted@ == name@,
                spec_find(self.sessions@, name@) == spec_find(
                    self.sessions@.skip(i as int),
                    name@,
                ),
            decreases len - i,
        {
            proof {
                assert(self.sessions@.skip(i as int)[0] == self.sessions@[i as int]);
                assert(self.sessions@.skip(i as int).drop_first() =~= self.sessions@.skip(
                    i as int + 1,
                ));
            }
            if self.sessions[i].0 == wanted {
                return Some(&self.sessions[i].1);
            }
            i = i + 1;
        }
        None
    }

    /// Lay a preset over the configuration: the first pair under the same
    /// name is replaced, a new name is appended. Lookups then see the new
    /// value under this name and are unchanged under every other.
    pub fn set_preset(&mut self, name: String, value: String)
        ensures
            spec_find(final(self).presets@, name@) matches Some(v) && v@ == value@,
            forall|other: Seq<char>|
                other != name@ ==> #[trigger] spec_find(final(self).presets@, other) == spec_find(
                    old(self).presets@,
                    other,
                ),
            final(self).sessions == old(self).sessions,
    {
        let ghost orig = self.presets@;
        let mut i: usize = 0;
        let len = self.presets.len();
        while i < len
            invariant
                len == self.presets@.len(),
                i <= len,
                self.presets@ == orig,
                orig == old(self).presets@,
                self.sessions == old(self).sessions,
                forall|k: int| 0 <= k < i ==> #[trigger] orig[k].0@ != name@,
            decreases len - i,
        {
            if self.presets[i].0 == name {
                self.presets.set(i, (name, value));
                proof {
                    lemma_find_set::<String>(orig, self.presets@, i as int, name@);
                }
                return;
            }
            i = i + 1;
        }
        self.presets.push((name, value));
        proof {
            lemma_find_append::<String>(orig, self.presets@, name@);
        }
    }

    /// Lay a session over the configuration, as `set_preset` does a preset.
    pub fn set_session(&mut self, name: String, value: SessionConfig)
        ensures
            spec_find(final(self).sessions@, name@) == Some(value),
            forall|other: Seq<char>|
                other != name@ ==> #[trigger] spec_find(final(self).sessions@, other) == spec_find(
                    old(self).sessions@,
                    other,
                ),
            final(self).presets == old(self).presets,
    {
        let ghost orig = self.sessions@;
        let mut i: usize = 0;
        let len = self.sessions.len();
        while i < len
            invariant
                len == self.sessions@.len(),
                i <= len,
                self.sessions@ == orig,
                orig == old(self).sessions@,
                self.presets == old(self).presets,
                forall|k: int| 0 <= k < i ==> #[trigger] orig[k].0@ != name@,
            decreases len - i,
        {
            if self.sessions[i].0 == name {
                self.sessions.set(i, (name, value));
                proof {
                    lemma_find_set::<SessionConfig>(orig, self.sessions@, i as int, name@);
                }
                return;
            }
            i = i + 1;
        }
        self.sessions.push((name, value));
        proof {
            lemma_find_append::<SessionConfig>(orig, self.sessions@, name@);
        }
    }
}

impl Default for Config {
    /// A configuration with nothing in it.
    fn default() -> (r: Config)
        ensures
            r.presets@.len() == 0,
            r.sessions@.len() == 0,
    {
        Config { presets: Vec::new(), sessions: Vec::new() }
    }
}

/// Replacing the pair at the first occurrence of `name` redirects the lookup
/// of `name` to the new pair and leaves every other lookup alone.
proof fn lemma_find_set<V>(orig: Seq<(String, V)>, upd: Seq<(String, V)>, i: int, name: Seq<char>)
    requires
        0 <= i < orig.len(),
        upd.len() == orig.len(),
        forall|k: int| 0 <= k < i ==> #[trigger] orig[k].0@ != name,
        forall|k: int| 0 <= k < orig.len() && k != i ==> upd[k] == orig[k],
        orig[i].0@ == name,
        upd[i].0@ == name,
    ensures
        spec_find(upd, name) == Some(upd[i].1),
        forall|other: Seq<char>|
            other != name ==> #[trigger] spec_find(upd, other) == spec_find(orig, other),
    decreases orig.len(),
{
    if i == 0 {
        assert forall|other: Seq<char>| other != name implies #[trigger] spec_find(upd, other)
            == spec_find(orig, other) by {
            assert(upd.drop_first() =~= orig.drop_first());
        }
    } else {
        assert(upd[0] == orig[0]);
        assert forall|k: int| 0 <= k < i - 1 implies #[trigger] orig.drop_first()[k].0@
            != name by {
            assert(orig.drop_first()[k] == orig[k + 1]);
        }
        assert forall|k: int|
            0 <= k < orig.drop_first().len() && k != i - 1 implies upd.drop_first()[k]
            == orig.drop_first()[k] by {
            assert(upd.drop_first()[k] == upd[k + 1]);
            assert(orig.drop_first()[k] == orig[k + 1]);
        }
        assert(orig.drop_first()[i - 1] == orig[i]);
        assert(upd.drop_first()[i - 1] == upd[i]);
        lemma_find_set::<V>(orig.drop_first(), upd.drop_first(), i - 1, name);
        assert forall|other: Seq<char>| other != name implies #[trigger] spec_find(upd, other)
            == spec_find(orig, other) by {
            assert(spec_find(upd.drop_first(), other) == spec_find(orig.drop_first(), other));
        }
    }
}

/// Appending a pair serves lookups of its name that found nothing before, and
/// leaves every other lookup alone.
proof fn lemma_find_append<V>(orig: Seq<(String, V)>, upd: Seq<(String, V)>, name: Seq<char>)
    requires
        upd.len() == orig.len() + 1,
        forall|k: int| 0 <= k < orig.len() ==> #[trigger] orig[k].0@ != name,
        forall|k: int| 0 <= k < orig.len() ==> upd[k] == orig[k],
        upd[orig.len() as int].0@ == name,
    ensures
        spec_find(upd, name) == Some(upd[orig.len() as int].1),
        forall|other: Seq<char>|
            other != name ==> #[trigger] spec_find(upd, other) == spec_find(orig, other),
    decreases orig.len(),
{
    if orig.len() == 0 {
        assert forall|other: Seq<char>| other != name implies #[trigger] spec_find(upd, other)
            == spec_find(orig, other) by {
            assert(spec_find(upd.drop_first(), other) == None::<V>);
        }
    } else {
        assert(upd[0] == orig[0]);
        assert forall|k: int| 0 <= k < orig.drop_first().len() implies {
            &&& #[trigger] orig.drop_first()[k].0@ != name
            &&& upd.drop_first()[k] == orig.drop_first()[k]
        } by {
            assert(orig.drop_first()[k] == orig[k + 1]);
            assert(upd.drop_first()[k] == upd[k + 1]);
        }
        assert(upd.drop_first()[orig.len() - 1] == upd[orig.len() as int]);
        lemma_find_append::<V>(orig.drop_first(), upd.drop_first(), name);
        assert forall|other: Seq<char>| other != name implies #[trigger] spec_find(upd, other)
            == spec_find(orig, other) by {
            assert(spec_find(upd.drop_first(), other) == spec_find(orig.drop_first(), other));
        }
    }
}

/// The preset a configuration key stands for: the `work`, `break` and
/// `long-break` keys name their presets; anything else names none.
pub fn config_key_to_preset(key: &str) -> (r: Option<&'static str>)
    ensures
        match r {
            Some(v) => (key@ == "work"@ && v@ == "pomodoro"@) || (key@ == "break"@ && v@
                == "break"@) || (key@ == "long-break"@ && v@ == "long-break"@),
            None => key@ != "work"@ && key@ != "break"@ && key@ != "long-break"@,
        },
{
    let k = key.to_owned();
    if k == String::from_str("work") {
        Some("pomodoro")
    } else if k == String::from_str("break") {
        Some("break")
    } else if k == String::from_str("long-break") {
        Some("long-break")
    } else {
        None
    }
}

/// A validated configuration change: a new round count for the pomodoro
/// session, or a new duration string for a preset.
#[derive(Debug)]
pub enum ConfigUpdate {
    Rounds(u32),
    Preset { name: &'static str, value: String },
}

/// Check a `set` request before anything touches the configuration file.
/// `rounds` takes a positive integer; the three preset keys take a valid
/// duration string; anything else is an unknown key.
pub fn validate_set_value(key: &str, value: &str) -> (r: Result<ConfigUpdate, String>)
    ensures
        match r {
            Ok(u) => match u {
                ConfigUpdate::Rounds(n) => key@ == "rounds"@ && is_unsigned_dec(value@) && n
                    == unsigned_dec_val(value@) && n > 0,
                ConfigUpdate::Preset { name, value: v } => {
                    &&& key@ != "rounds"@
                    &&& (key@ == "work"@ && name@ == "pomodoro"@) || (key@ == "break"@ && name@
                        == "break"@) || (key@ == "long-break"@ && name@ == "long-break"@)
                    &&& duration_format_ok(value@) && 0 < duration_total(value@) <= u64::MAX
                    &&& v@ == value@
                },
            },
            Err(_) => {
                ||| key@ == "rounds"@ && (!is_unsigned_dec(value@) || unsigned_dec_val(value@)
                    > u32::MAX || unsigned_dec_val(value@) == 0)
                ||| key@ != "rounds"@ && key@ != "work"@ && key@ != "break"@ && key@
                    != "long-break"@
                ||| key@ != "rounds"@ && (key@ == "work"@ || key@ == "break"@ || key@
                    == "long-break"@) && (!duration_format_ok(value@) || duration_total(value@)
                    == 0 || duration_total(value@) > u64::MAX)
            },
        },
{
    let k = key.to_owned();
    if k == String::from_str("rounds") {
        let rounds = match parse_u32(value) {
            Some(n) => n,
            None => {
                return Err(
                    String::from_str("Invalid rounds value: '").concat(value).concat(
                        "'. Must be a positive integer.",
                    ),
                );
            },
        };
        if rounds == 0 {
            return Err(String::from_str("Rounds must be greater than zero."));
        }
        return Ok(ConfigUpdate::Rounds(rounds));
    }
    let preset_name = match config_key_to_preset(key) {
        Some(n) => n,
        None => {
            return Err(
                String::from_str("Unknown config key: '").concat(key).concat(
                    "'. Valid keys: work, break, long-break, rounds",
                ),
            );
        },
    };
    match Duration::parse(value) {
        Ok(_) => Ok(ConfigUpdate::Preset { name: preset_name, value: value.to_owned() }),
        Err(e) => Err(
            String::from_str("Invalid duration '").concat(value).concat("': ").concat(e.as_str()),
        ),
    }
}

} // verus!
