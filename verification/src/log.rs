//! The session log's arithmetic: which entries fall on a day or in a range of
//! days, what they sum to, and the per-name totals a summary prints, ordered
//! by time spent. Reading and writing the log file, and turning timestamps
//! into day numbers, is the caller's business: an entry here carries its
//! completion day as a plain count of days.

use vstd::prelude::*;
use vstd::string::StringExecFns;
use crate::decimal::dec_digits;
use crate::decimal::u64_to_dec;

verus! {

/// One logged phase: its name, how long it ran, and the day it finished,
/// counted from the calendar's epoch.
#[derive(Debug)]
pub struct LogEntry {
    pub name: String,
    pub duration_secs: u64,
    pub completed_day: u64,
}

impl Clone for LogEntry {
    /// An equal copy.
    fn clone(&self) -> (r: LogEntry)
        ensures
            r == *self,
    {
        LogEntry {
            name: self.name.clone(),
            duration_secs: self.duration_secs,
            completed_day: self.completed_day,
        }
    }
}

/// The `h` and `m` rendering of a number of seconds: `1h 30m`, or `25m` when
/// under an hour.
pub open spec fn spec_format_duration_human(secs: int) -> Seq<char> {
    let h = secs / 3600;
    let m = (secs % 3600) / 60;
    if h > 0 {
        dec_digits(h) + seq!['h', ' '] + dec_digits(m) + seq!['m']
    } else {
        dec_digits(m) + seq!['m']
    }
}

/// Render a number of seconds in hours and minutes.
pub fn format_duration_human(secs: u64) -> (r: String)
    ensures
        r@ == spec_format_duration_human(secs as int),
{
    let h = secs / 3600;
    let m = (secs % 3600) / 60;
    let r = if h > 0 {
        u64_to_dec(h).concat("h ").concat(u64_to_dec(m).as_str()).concat("m")
    } else {
        u64_to_dec(m).concat("m")
    };
    proof {
        reveal_strlit("h ");
        reveal_strlit("m");
        assert(r@ =~= spec_format_duration_human(secs as int));
    }
    r
}

/// The sum of the entries' durations, as an unbounded integer.
pub open spec fn spec_total_secs(entries: Seq<LogEntry>) -> int
    decreases entries.len(),
{
    if entries.len() == 0 {
        0
    } else {
        spec_total_secs(entries.drop_last()) + entries.last().duration_secs
    }
}

/// Duration sums never go negative.
pub proof fn lemma_total_secs_nonneg(entries: Seq<LogEntry>)
    ensures
        spec_total_secs(entries) >= 0,
    decreases entries.len(),
{
    if entries.len() > 0 {
        lemma_total_secs_nonneg(entries.drop_last());
    }
}

/// A sum capped at what `u64` holds.
pub open spec fn cap_u64(x: int) -> int {
    if x <= u64::MAX {
        x
    } else {
        u64::MAX as int
    }
}

/// Sum the entries' durations, saturating at `u64::MAX`.
pub fn total_secs(entries: &Vec<LogEntry>) -> (r: u64)
    ensures
        r == cap_u64(spec_total_secs(entries@)),
{
    let mut acc: u64 = 0;
    let mut i: usize = 0;
    let len = entries.len();
    proof {
        assert(entries@.take(0) =~= Seq::<LogEntry>::empty());
    }
    while i < len
        invariant
            len == entries@.len(),
            i <= len,
            acc == cap_u64(spec_total_secs(entries@.take(i as int))),
        decreases len - i,
    {
        proof {
            assert(entries@.take(i as int + 1).drop_last() =~= entries@.take(i as int));
            assert(entries@.take(i as int + 1).last() == entries@[i as int]);
            lemma_total_secs_nonneg(entries@.take(i as int));
        }
        acc = acc.saturating_add(entries[i].duration_secs);
        i = i + 1;
    }
    proof {
        assert(entries@.take(len as int) =~= entries@);
    }
    acc
}

/// The entries completed on exactly this day.
pub open spec fn spec_on_day(entries: Seq<LogEntry>, day: u64) -> Seq<LogEntry> {
    entries.filter(|e: LogEntry| e.completed_day == day)
}

/// The entries completed on this day or later.
pub open spec fn spec_since_day(entries: Seq<LogEntry>, from_day: u64) -> Seq<LogEntry> {
    entries.filter(|e: LogEntry| e.completed_day >= from_day)
}

/// Keep the entries completed on exactly this day.
pub fn entries_on_day(entries: &Vec<LogEntry>, day: u64) -> (r: Vec<LogEntry>)
    ensures
        r@ == spec_on_day(entries@, day),
{
    let mut r: Vec<LogEntry> = Vec::new();
    let mut i: usize = 0;
    let len = entries.len();
    proof {
        reveal(Seq::filter);
        assert(entries@.take(0) =~= Seq::<LogEntry>::empty());
    }
    while i < len
        invariant
            len == entries@.len(),
            i <= len,
            r@ == spec_on_day(entries@.take(i as int), day),
        decreases len - i,
    {
        proof {
            reveal(Seq::filter);
            assert(entries@.take(i as int + 1).drop_last() =~= entries@.take(i as int));
            assert(entries@.take(i as int + 1).last() == entries@[i as int]);
        }
        if entries[i].completed_day == day {
            r.push(entries[i].clone());
        }
        i = i + 1;
    }
    proof {
        assert(entries@.take(len as int) =~= entries@);
    }
    r
}

/// Keep the entries completed on this day or later.
pub fn entries_since(entries: &Vec<LogEntry>, from_day: u64) -> (r: Vec<LogEntry>)
    ensures
        r@ == spec_since_day(entries@, from_day),
{
    let mut r: Vec<LogEntry> = Vec::new();
    let mut i: usize = 0;
    let len = entries.len();
    proof {
        reveal(Seq::filter);
        assert(entries@.take(0) =~= Seq::<LogEntry>::empty());
    }
    while i < len
        invariant
            len == entries@.len(),
            i <= len,
            r@ == spec_since_day(entries@.take(i as int), from_day),
        decreases len - i,
    {
        proof {
            reveal(Seq::filter);
            assert(entries@.take(i as int + 1).drop_last() =~= entries@.take(i as int));
            assert(entries@.take(i as int + 1).last() == entries@[i as int]);
        }
        if entries[i].completed_day >= from_day {
            r.push(entries[i].clone());
        }
        i = i + 1;
    }
    proof {
        assert(entries@.take(len as int) =~= entries@);
    }
    r
}

/// The entries under one name.
pub open spec fn spec_entries_of(entries: Seq<LogEntry>, name: Seq<char>) -> Seq<LogEntry> {
    entries.filter(|e: LogEntry| e.name@ == name)
}

/// How many entries carry this name.
pub open spec fn spec_name_count(entries: Seq<LogEntry>, name: Seq<char>) -> int {
    spec_entries_of(entries, name).len() as int
}

/// The summed duration of the entries under this name.
pub open spec fn spec_name_secs(entries: Seq<LogEntry>, name: Seq<char>) -> int {
    spec_total_secs(spec_entries_of(entries, name))
}

/// One line of a summary section: a name, how many entries it has, and their
/// summed duration.
#[derive(Debug)]
pub struct NameTotal {
    pub name: String,
    pub count: usize,
    pub secs: u64,
}

impl Clone for NameTotal {
    /// An equal copy.
    fn clone(&self) -> (r: NameTotal)
        ensures
            r == *self,
    {
        NameTotal { name: self.name.clone(), count: self.count, secs: self.secs }
    }
}

/// A row is faithful to the entries: its count and seconds are those of its
/// name, with the seconds capped at `u64::MAX`.
pub open spec fn row_faithful(entries: Seq<LogEntry>, row: NameTotal) -> bool {
    &&& row.count == spec_name_count(entries, row.name@)
    &&& row.secs == cap_u64(spec_name_secs(entries, row.name@))
}

/// Rows carry pairwise distinct names.
pub open spec fn rows_distinct(rows: Seq<NameTotal>) -> bool {
    forall|i: int, j: int|
        0 <= i < j < rows.len() ==> (#[trigger] rows[i]).name@ != (#[trigger] rows[j]).name@
}

/// Every entry's name has a row.
pub open spec fn rows_complete(entries: Seq<LogEntry>, rows: Seq<NameTotal>) -> bool {
    forall|k: int|
        0 <= k < entries.len() ==> exists|i: int|
            0 <= i < rows.len() && (#[trigger] rows[i]).name@ == (#[trigger] entries[k]).name@
}

/// Every row's name comes from some entry.
pub open spec fn rows_grounded(entries: Seq<LogEntry>, rows: Seq<NameTotal>) -> bool {
    forall|i: int|
        0 <= i < rows.len() ==> exists|k: int|
            0 <= k < entries.len() && (#[trigger] rows[i]).name@ == entries[k].name@
}

/// A name no entry of the prefix carries has an empty group there.
proof fn lemma_entries_of_absent(entries: Seq<LogEntry>, i: int, name: Seq<char>)
    requires
        0 <= i <= entries.len(),
        forall|k: int| 0 <= k < i ==> (#[trigger] entries[k]).name@ != name,
    ensures
        spec_entries_of(entries.take(i), name) == Seq::<LogEntry>::empty(),
    decreases i,
{
    if i == 0 {
        reveal(Seq::filter);
        assert(entries.take(0) =~= Seq::<LogEntry>::empty());
    } else {
        lemma_entries_of_absent(entries, i - 1, name);
        lemma_entries_of_step(entries, i - 1, name);
    }
}

/// Stepping the entries by one extends one name's group and no other.
proof fn lemma_entries_of_step(entries: Seq<LogEntry>, i: int, name: Seq<char>)
    requires
        0 <= i < entries.len(),
    ensures
        spec_entries_of(entries.take(i + 1), name) == if entries[i].name@ == name {
            spec_entries_of(entries.take(i), name).push(entries[i])
        } else {
            spec_entries_of(entries.take(i), name)
        },
{
    reveal(Seq::filter);
    assert(entries.take(i + 1).drop_last() =~= entries.take(i));
    assert(entries.take(i + 1).last() == entries[i]);
}

/// Find the row holding this name.
fn find_row(rows: &Vec<NameTotal>, name: &String) -> (r: Option<usize>)
    ensures
        match r {
            Some(j) => j < rows@.len() && rows@[j as int].name@ == name@,
            None => forall|j: int| 0 <= j < rows@.len() ==> (#[trigger] rows@[j]).name@ != name@,
        },
{
    let mut j: usize = 0;
    let len = rows.len();
    while j < len
        invariant
            len == rows@.len(),
            j <= len,
            forall|k: int| 0 <= k < j ==> (#[trigger] rows@[k]).name@ != name@,
        decreases len - j,
    {
        if rows[j].name == *name {
            return Some(j);
        }
        j = j + 1;
    }
    None
}

/// Group the entries by name, in order of first appearance: each name once,
/// with how many entries it has and their summed duration (capped at what
/// `u64` holds).
#[verifier::rlimit(60)]
pub fn group_by_name(entries: &Vec<LogEntry>) -> (r: Vec<NameTotal>)
    ensures
        forall|i: int| 0 <= i < r@.len() ==> row_faithful(entries@, #[trigger] r@[i]),
        rows_distinct(r@),
        rows_complete(entries@, r@),
        rows_grounded(entries@, r@),
{
    let mut rows: Vec<NameTotal> = Vec::new();
    let mut i: usize = 0;
    let len = entries.len();
    proof {
        reveal(Seq::filter);
        assert(entries@.take(0) =~= Seq::<LogEntry>::empty());
    }
    while i < len
        invariant
            len == entries@.len(),
            i <= len,
            forall|j: int|
                0 <= j < rows@.len() ==> row_faithful(entries@.take(i as int), #[trigger] rows@[j]),
            rows_distinct(rows@),
            rows_complete(entries@.take(i as int), rows@),
            rows_grounded(entries@.take(i as int), rows@),
        decreases len - i,
    {
        let ghost pre = entries@.take(i as int);
        let ghost post = entries@.take(i as int + 1);
        let entry_name = entries[i].name.clone();
        let dur = entries[i].duration_secs;
        proof {
            assert(post.drop_last() =~= pre);
            assert(post.last() == entries@[i as int]);
            assert forall|nm: Seq<char>| true implies {
                &&& spec_name_count(post, nm) == spec_name_count(pre, nm) + (if entries@[i as int].name@
                    == nm {
                    1int
                } else {
                    0
                })
                &&& spec_name_secs(post, nm) == spec_name_secs(pre, nm) + (if entries@[i as int].name@
                    == nm {
                    entries@[i as int].duration_secs as int
                } else {
                    0
                })
            } by {
                lemma_entries_of_step(entries@, i as int, nm);
                if entries@[i as int].name@ == nm {
                    assert(spec_entries_of(post, nm).drop_last() =~= spec_entries_of(pre, nm));
                }
            }
            lemma_total_secs_nonneg(spec_entries_of(pre, entry_name@));
        }
        let ghost rows_pre = rows@;
        match find_row(&rows, &entry_name) {
            Some(j) => {
                let old_row = rows[j].clone();
                proof {
                    assert(spec_name_count(pre, old_row.name@) <= pre.len()) by {
                        pre.lemma_filter_len(|e: LogEntry| e.name@ == old_row.name@);
                    }
                }
                let new_row = NameTotal {
                    name: old_row.name,
                    count: old_row.count + 1,
                    secs: old_row.secs.saturating_add(dur),
                };
                rows.set(j, new_row);
                proof {
                    assert(forall|a: int|
                        0 <= a < rows@.len() ==> (#[trigger] rows@[a]).name@
                            == rows_pre[a].name@);
                    assert forall|k: int| 0 <= k < rows@.len() implies row_faithful(
                        post,
                        #[trigger] rows@[k],
                    ) by {
                        if k != j {
                            assert(rows@[k] == rows_pre[k]);
                            assert(rows_pre[k].name@ != rows_pre[j as int].name@);
                        }
                    }
                    assert forall|k: int| 0 <= k < post.len() implies exists|m: int|
                        0 <= m < rows@.len() && (#[trigger] rows@[m]).name@
                            == (#[trigger] post[k]).name@ by {
                        if k == i {
                            assert(rows@[j as int].name@ == post[k].name@);
                        } else {
                            assert(post[k] == pre[k]);
                            let m = choose|m: int|
                                0 <= m < rows_pre.len() && (#[trigger] rows_pre[m]).name@
                                    == pre[k].name@;
                            assert(rows@[m].name@ == rows_pre[m].name@);
                        }
                    }
                    assert forall|k: int| 0 <= k < rows@.len() implies exists|m: int|
                        0 <= m < post.len() && (#[trigger] rows@[k]).name@ == post[m].name@ by {
                        let m = choose|m: int|
                            0 <= m < pre.len() && (#[trigger] rows_pre[k]).name@ == pre[m].name@;
                        assert(post[m] == pre[m]);
                        assert(rows@[k].name@ == rows_pre[k].name@);
                    }
                }
            },
            None => {
                rows.push(NameTotal { name: entry_name, count: 1, secs: dur });
                proof {
                    let last = rows@.len() - 1;
                    assert forall|k: int| 0 <= k < i as int implies (#[trigger] entries@[k]).name@
                        != entries@[i as int].name@ by {
                        assert(pre[k] == entries@[k]);
                        if entries@[k].name@ == entries@[i as int].name@ {
                            let m = choose|m: int|
                                0 <= m < rows_pre.len() && (#[trigger] rows_pre[m]).name@
                                    == pre[k].name@;
                        }
                    }
                    lemma_entries_of_absent(entries@, i as int, entries@[i as int].name@);
                    assert forall|k: int| 0 <= k < rows@.len() implies row_faithful(
                        post,
                        #[trigger] rows@[k],
                    ) by {
                        if k != last {
                            assert(rows@[k] == rows_pre[k]);
                            assert(rows_pre[k].name@ != entries@[i as int].name@);
                        } else {
                            assert(spec_entries_of(pre, entry_name@).len() == 0);
                            assert(spec_total_secs(spec_entries_of(pre, entry_name@)) == 0);
                        }
                    }
                    assert forall|a: int, b: int| 0 <= a < b < rows@.len() implies (
                    #[trigger] rows@[a]).name@ != (#[trigger] rows@[b]).name@ by {
                        if b == last {
                            assert(rows@[a] == rows_pre[a]);
                        }
                    }
                    assert forall|k: int| 0 <= k < post.len() implies exists|m: int|
                        0 <= m < rows@.len() && (#[trigger] rows@[m]).name@
                            == (#[trigger] post[k]).name@ by {
                        if k == i {
                            assert(rows@[last].name@ == post[k].name@);
                        } else {
                            assert(post[k] == pre[k]);
                            let m = choose|m: int|
                                0 <= m < rows_pre.len() && (#[trigger] rows_pre[m]).name@
                                    == pre[k].name@;
                            assert(rows@[m].name@ == rows_pre[m].name@);
                        }
                    }
                    assert forall|k: int| 0 <= k < rows@.len() implies exists|m: int|
                        0 <= m < post.len() && (#[trigger] rows@[k]).name@ == post[m].name@ by {
                        if k == last {
                            assert(rows@[k].name@ == post[i as int].name@);
                        } else {
                            let m = choose|m: int|
                                0 <= m < pre.len() && (#[trigger] rows_pre[k]).name@
                                    == pre[m].name@;
                            assert(post[m] == pre[m]);
                            assert(rows@[k].name@ == rows_pre[k].name@);
                        }
                    }
                }
            },
        }
        i = i + 1;
    }
    proof {
        assert(entries@.take(len as int) =~= entries@);
    }
    rows
}

/// Rows stand in order of their summed seconds, most first.
pub open spec fn rows_sorted(rows: Seq<NameTotal>) -> bool {
    forall|i: int, j: int|
        0 <= i <= j < rows.len() ==> (#[trigger] rows[i]).secs >= (#[trigger] rows[j]).secs
}

/// The output rows are the input rows arranged by `perm`: every position
/// holds the input row its permutation entry names.
pub open spec fn arranged_by(out: Seq<NameTotal>, rows: Seq<NameTotal>, perm: Seq<int>) -> bool {
    &&& perm.len() == out.len()
    &&& forall|a: int|
        0 <= a < out.len() ==> 0 <= #[trigger] perm[a] < rows.len() && out[a] == rows[perm[a]]
}

/// Positions name pairwise different inputs.
pub open spec fn perm_injective(perm: Seq<int>) -> bool {
    forall|a: int, b: int| 0 <= a < b < perm.len() ==> #[trigger] perm[a] != #[trigger] perm[b]
}

/// Every input below `i` is named by some position.
pub open spec fn perm_covers(perm: Seq<int>, i: int) -> bool {
    forall|k: int| 0 <= k < i ==> #[trigger] perm.contains(k)
}

/// Inserting the next input row at its position keeps the partial result a
/// permutation of the inputs seen so far, and keeps it ordered.
proof fn lemma_sorted_insert_step(
    out_pre: Seq<NameTotal>,
    out_post: Seq<NameTotal>,
    rows: Seq<NameTotal>,
    perm_pre: Seq<int>,
    perm_post: Seq<int>,
    i: int,
    j: int,
)
    requires
        0 <= i < rows.len(),
        0 <= j <= out_pre.len(),
        arranged_by(out_pre, rows, perm_pre),
        forall|a: int| 0 <= a < perm_pre.len() ==> #[trigger] perm_pre[a] < i,
        perm_injective(perm_pre),
        perm_covers(perm_pre, i),
        rows_sorted(out_pre),
        forall|a: int| 0 <= a < j ==> (#[trigger] out_pre[a]).secs >= rows[i].secs,
        j < out_pre.len() ==> out_pre[j].secs < rows[i].secs,
        out_post == out_pre.insert(j, rows[i]),
        perm_post == perm_pre.insert(j, i),
    ensures
        arranged_by(out_post, rows, perm_post),
        forall|a: int| 0 <= a < perm_post.len() ==> #[trigger] perm_post[a] < i + 1,
        perm_injective(perm_post),
        perm_covers(perm_post, i + 1),
        rows_sorted(out_post),
{
    out_pre.insert_ensures(j, rows[i]);
    perm_pre.insert_ensures(j, i);
    assert forall|a: int| 0 <= a < out_post.len() implies 0 <= #[trigger] perm_post[a]
        < rows.len() && out_post[a] == rows[perm_post[a]] && perm_post[a] < i + 1 by {
        if a < j {
            assert(out_post[a] == out_pre[a]);
            assert(perm_post[a] == perm_pre[a]);
        } else if a == j {
            assert(out_post[a] == rows[i]);
            assert(perm_post[a] == i);
        } else {
            assert(out_post[a] == out_pre[a - 1]);
            assert(perm_post[a] == perm_pre[a - 1]);
        }
    }
    assert forall|a: int, b: int| 0 <= a < b < perm_post.len() implies #[trigger] perm_post[a]
        != #[trigger] perm_post[b] by {
        if a != j {
            let a2: int = if a < j {
                a
            } else {
                a - 1
            };
            assert(perm_post[a] == perm_pre[a2]);
        }
        if b != j {
            let b2: int = if b < j {
                b
            } else {
                b - 1
            };
            assert(perm_post[b] == perm_pre[b2]);
        }
    }
    assert forall|k: int| 0 <= k < i + 1 implies #[trigger] perm_post.contains(k) by {
        if k == i {
            assert(perm_post[j] == i);
        } else {
            assert(perm_pre.contains(k));
            let a = choose|a: int| 0 <= a < perm_pre.len() && #[trigger] perm_pre[a] == k;
            if a < j {
                assert(perm_post[a] == perm_pre[a]);
            } else {
                assert(perm_post[a + 1] == perm_pre[a]);
            }
        }
    }
    assert forall|a: int, b: int| 0 <= a <= b < out_post.len() implies (
    #[trigger] out_post[a]).secs >= (#[trigger] out_post[b]).secs by {
        if a < j {
            assert(out_post[a] == out_pre[a]);
        }
        if a > j {
            assert(out_post[a] == out_pre[a - 1]);
        }
        if b < j {
            assert(out_post[b] == out_pre[b]);
        }
        if b > j {
            assert(out_post[b] == out_pre[b - 1]);
        }
    }
}

/// Order summary rows by time spent, most first. The result holds exactly the
/// given rows: the same number, each a given row, and each given row present.
/// The order of rows with equal seconds is not fixed.
pub fn sort_rows_by_secs(rows: &Vec<NameTotal>) -> (r: Vec<NameTotal>)
    requires
        rows_distinct(rows@),
    ensures
        r@.len() == rows@.len(),
        forall|a: int| 0 <= a < r@.len() ==> rows@.contains(#[trigger] r@[a]),
        forall|k: int| 0 <= k < rows@.len() ==> r@.contains(#[trigger] rows@[k]),
        rows_sorted(r@),
        rows_distinct(r@),
{
    let mut out: Vec<NameTotal> = Vec::new();
    let ghost mut perm = Seq::<int>::empty();
    let mut i: usize = 0;
    let len = rows.len();
    while i < len
        invariant
            len == rows@.len(),
            i <= len,
            out@.len() == i,
            arranged_by(out@, rows@, perm),
            forall|a: int| 0 <= a < perm.len() ==> #[trigger] perm[a] < i,
            perm_injective(perm),
            perm_covers(perm, i as int),
            rows_sorted(out@),
        decreases len - i,
    {
        let x = rows[i].clone();
        let mut j: usize = 0;
        let out_len = out.len();
        while j < out_len && out[j].secs >= x.secs
            invariant
                out_len == out@.len(),
                j <= out_len,
                x == rows@[i as int],
                forall|a: int| 0 <= a < j ==> (#[trigger] out@[a]).secs >= x.secs,
            decreases out_len - j,
        {
            j = j + 1;
        }
        let ghost out_pre = out@;
        let ghost perm_pre = perm;
        out.insert(j, x);
        proof {
            perm = perm.insert(j as int, i as int);
            lemma_sorted_insert_step(
                out_pre,
                out@,
                rows@,
                perm_pre,
                perm,
                i as int,
                j as int,
            );
        }
        i = i + 1;
    }
    proof {
        lemma_arranged_props(out@, rows@, perm);
    }
    out
}

/// A result arranged by an injective, covering permutation holds exactly the
/// input rows, and distinct input names stay distinct.
proof fn lemma_arranged_props(out: Seq<NameTotal>, rows: Seq<NameTotal>, perm: Seq<int>)
    requires
        out.len() == rows.len(),
        arranged_by(out, rows, perm),
        perm_injective(perm),
        perm_covers(perm, rows.len() as int),
        rows_distinct(rows),
    ensures
        forall|a: int| 0 <= a < out.len() ==> rows.contains(#[trigger] out[a]),
        forall|k: int| 0 <= k < rows.len() ==> out.contains(#[trigger] rows[k]),
        rows_distinct(out),
{
    assert forall|a: int| 0 <= a < out.len() implies rows.contains(#[trigger] out[a]) by {
        assert(0 <= perm[a] < rows.len() && out[a] == rows[perm[a]]);
    }
    assert forall|k: int| 0 <= k < rows.len() implies out.contains(#[trigger] rows[k]) by {
        assert(perm.contains(k));
        let a = choose|a: int| 0 <= a < perm.len() && #[trigger] perm[a] == k;
        assert(out[a] == rows[k]);
    }
    assert forall|a: int, b: int| 0 <= a < b < out.len() implies (#[trigger] out[a]).name@ != (
    #[trigger] out[b]).name@ by {
        assert(out[a] == rows[perm[a]]);
        assert(out[b] == rows[perm[b]]);
        assert(perm[a] != perm[b]);
        if perm[a] < perm[b] {
            assert(rows[perm[a]].name@ != rows[perm[b]].name@);
        } else {
            assert(rows[perm[b]].name@ != rows[perm[a]].name@);
        }
    }
}

} // verus!
